//! Which mount paths show a stored value, and which of them a change makes stale.

use vstd::prelude::*;
use vstd::slice::slice_subrange;

use crate::errors::{outcome, EventFsError};
use crate::file_names::{stream_subject_file_name_from_str, subject_file_name};
use crate::mount_paths::{checked_components, mount_components, Components, MountPath};
use crate::numbers::{decimal, decimal_text};
use crate::path::{is_reserved_kv_key, reserved_key, AgentArea, JetStreamPath};
use crate::subjects::{
    MaterializedTarget, AGENTS_BUCKET, AGENTS_STREAM, SEMANTIC_BUCKET, TASKS_BUCKET,
};
use crate::text::{
    concat2, concat3, join, join_text, option_text, option_view, same_text, split, split_text,
    strip_prefix, texts, without_prefix, Text,
};

verus! {

/// A value that the storage holds. `S` is `String` in executable code and [`Text`] in
/// contracts.
#[derive(Clone, Debug, PartialEq, Eq)]
pub enum StorageFact<S = String> {
    Kv { bucket: S, key: S },
    StreamSubject { stream: S, subject: S },
    Object { bucket: S, name: S },
}

impl View for StorageFact<String> {
    type V = StorageFact<Text>;

    open spec fn view(&self) -> StorageFact<Text> {
        match *self {
            StorageFact::Kv { bucket, key } => StorageFact::Kv { bucket: bucket@, key: key@ },
            StorageFact::StreamSubject { stream, subject } => StorageFact::StreamSubject {
                stream: stream@,
                subject: subject@,
            },
            StorageFact::Object { bucket, name } => StorageFact::Object {
                bucket: bucket@,
                name: name@,
            },
        }
    }
}

/// Why a path is affected by a change.
#[derive(Clone, Copy, Debug, PartialEq, Eq, Structural)]
pub enum AffectedPathReason {
    Exact,
    Ancestor,
    Alias,
    Mailbox,
}

/// A path that a change affects. `P` is [`MountPath`] in executable code and
/// [`Components`] in contracts.
#[derive(Debug, PartialEq, Eq)]
pub struct AffectedPath<P = MountPath> {
    pub path: P,
    pub reason: AffectedPathReason,
}

impl View for AffectedPath<MountPath> {
    type V = Affected;

    open spec fn view(&self) -> Affected {
        AffectedPath { path: self.path@, reason: self.reason }
    }
}

impl Clone for AffectedPath<MountPath> {
    fn clone(&self) -> (copy: Self)
        ensures
            copy@ == self@,
    {
        AffectedPath { path: self.path.clone(), reason: self.reason }
    }
}

impl AffectedPath {
    /// A path and why it is affected.
    pub fn new(path: MountPath, reason: AffectedPathReason) -> (affected: Self)
        ensures
            affected@ == (AffectedPath { path: path@, reason }),
    {
        AffectedPath { path, reason }
    }
}

/// The model of an affected path.
pub type Affected = AffectedPath<Components>;

/// The models of affected paths.
pub open spec fn affected_models(paths: Seq<AffectedPath>) -> Seq<Affected> {
    paths.map_values(|path: AffectedPath| path@)
}

/// What a function that lists affected paths returned.
pub open spec fn affected_outcome(result: Result<Vec<AffectedPath>, EventFsError>) -> Result<
    Seq<Affected>,
    EventFsError<Text>,
> {
    match result {
        Ok(paths) => Ok(affected_models(paths@)),
        Err(error) => Err(error@),
    }
}

// ---------------------------------------------------------------------------
// What is affected
// ---------------------------------------------------------------------------

impl StorageFact<Text> {
    /// The value behind a materialized file.
    pub open spec fn of_target(target: MaterializedTarget<Text>) -> Self {
        match target {
            MaterializedTarget::Kv { bucket, key } => StorageFact::Kv { bucket, key },
            MaterializedTarget::Stream { stream, subject } => StorageFact::StreamSubject {
                stream,
                subject,
            },
        }
    }

    /// The value that a path shows: none where it shows no single value that can
    /// change.
    pub open spec fn of(path: JetStreamPath<Text>) -> Option<Self> {
        match path {
            JetStreamPath::KvKey { bucket, key } => Some(StorageFact::Kv { bucket, key }),
            JetStreamPath::StreamSubject { stream, subject } => Some(
                StorageFact::StreamSubject { stream, subject: subject.0 },
            ),
            JetStreamPath::Object { bucket, object } => Some(
                StorageFact::Object { bucket, name: object },
            ),
            _ => match MaterializedTarget::of(path) {
                Some(target) => Some(StorageFact::of_target(target)),
                None => None,
            },
        }
    }
}

/// A place in the mount: fixed components, and a text whose pieces follow them.
pub struct Place {
    pub fixed: Components,
    pub tail: Option<Text>,
}

/// The path of a place, or its refusal.
pub open spec fn storage_path(place: Place) -> Result<Components, EventFsError<Text>> {
    match place.tail {
        None => checked_components(place.fixed),
        Some(tail) => if tail.len() == 0 {
            Err(EventFsError::bad_path("missing path tail"@))
        } else {
            checked_components(place.fixed + split(tail, '/'))
        },
    }
}

/// The agent, the area and the rest of a key of an agent's file.
pub open spec fn agent_key_parts(key: Text) -> Option<(Text, Text, Text)> {
    let parts = split(key, '/');
    let rest = join(parts.skip(2), '/');
    if parts.len() >= 3 && parts[0].len() > 0 && parts[1].len() > 0 && rest.len() > 0 {
        Some((parts[0], parts[1], rest))
    } else {
        None
    }
}

/// The agent and the area of a mailbox's subject.
pub open spec fn mailbox_parts(subject: Text) -> Option<(Text, AgentArea)> {
    let parts = split(subject, '.');
    if parts.len() == 3 && parts[0] == "agents"@ && parts[1].len() > 0 && !reserved_key(parts[1]) {
        match AgentArea::named(parts[2]) {
            Some(area) if area.mailbox() => Some((parts[1], area)),
            _ => None,
        }
    } else {
        None
    }
}

/// The places that show a value, each with the reason: first the value's own place,
/// then those of the files that are materialized from it.
pub open spec fn places(fact: StorageFact<Text>) -> Seq<(AffectedPathReason, Place)> {
    match fact {
        StorageFact::Kv { bucket, key } => {
            let own = (
                AffectedPathReason::Exact,
                Place { fixed: seq!["kv"@, bucket], tail: Some(key) },
            );
            if bucket == TASKS_BUCKET@ {
                seq![
                    own,
                    (
                        AffectedPathReason::Alias,
                        Place { fixed: seq!["tasks"@], tail: Some(key) },
                    ),
                ]
            } else if bucket == AGENTS_BUCKET@ {
                match agent_key_parts(key) {
                    Some((agent, area, rest)) => seq![
                        own,
                        (
                            AffectedPathReason::Alias,
                            Place { fixed: seq!["agents"@, agent, area], tail: Some(rest) },
                        ),
                    ],
                    None => seq![own],
                }
            } else if bucket == SEMANTIC_BUCKET@ {
                seq![
                    own,
                    (
                        AffectedPathReason::Alias,
                        Place { fixed: seq!["semantic"@], tail: Some(key) },
                    ),
                ]
            } else {
                seq![own]
            }
        },
        StorageFact::StreamSubject { stream, subject } => {
            let own = seq![
                (
                    AffectedPathReason::Exact,
                    Place {
                        fixed: seq!["streams"@, stream, "subjects"@],
                        tail: Some(subject_file_name(subject)),
                    },
                ),
            ];
            let event_log = if strip_prefix(subject, "events."@) == Some(stream) {
                seq![
                    (
                        AffectedPathReason::Alias,
                        Place { fixed: seq!["events"@], tail: Some(stream + ".jsonl"@) },
                    ),
                ]
            } else {
                Seq::empty()
            };
            let mailbox = match mailbox_parts(subject) {
                Some((agent, area)) if stream == AGENTS_STREAM@ => seq![
                    (
                        AffectedPathReason::Mailbox,
                        Place { fixed: seq!["agents"@, agent, area.name()], tail: None },
                    ),
                ],
                _ => Seq::empty(),
            };
            own + event_log + mailbox
        },
        StorageFact::Object { bucket, name } => seq![
            (AffectedPathReason::Exact, Place { fixed: seq!["objects"@, bucket], tail: Some(name) }),
        ],
    }
}

/// Whether a path is among the affected ones.
pub open spec fn lists_path(paths: Seq<Affected>, path: Components) -> bool {
    exists|i: int| 0 <= i < paths.len() && (#[trigger] paths[i]).path == path
}

/// The list with one more path, unless it is there already.
pub open spec fn with_path(paths: Seq<Affected>, affected: Affected) -> Seq<Affected> {
    if lists_path(paths, affected.path) {
        paths
    } else {
        paths.push(affected)
    }
}

/// The list with more paths, each unless it is there already.
pub open spec fn with_paths(paths: Seq<Affected>, more: Seq<Affected>) -> Seq<Affected>
    decreases more.len(),
{
    if more.len() == 0 {
        paths
    } else {
        with_path(with_paths(paths, more.drop_last()), more.last())
    }
}

/// The paths of places in order, without repetition, or the first refusal.
pub open spec fn resolved(places: Seq<(AffectedPathReason, Place)>) -> Result<
    Seq<Affected>,
    EventFsError<Text>,
>
    decreases places.len(),
{
    if places.len() == 0 {
        Ok(Seq::empty())
    } else {
        match (resolved(places.drop_last()), storage_path(places.last().1)) {
            (Err(error), _) => Err(error),
            (_, Err(error)) => Err(error),
            (Ok(paths), Ok(path)) => Ok(
                with_path(paths, AffectedPath { path, reason: places.last().0 }),
            ),
        }
    }
}

/// The paths that show a value.
pub open spec fn visible(fact: StorageFact<Text>) -> Result<Seq<Affected>, EventFsError<Text>> {
    resolved(places(fact))
}

/// How many components the ancestors of a path keep at least: below that, nothing
/// changes with the value.
pub open spec fn floor(path: Components, reason: AffectedPathReason) -> nat {
    if path.len() == 0 {
        0
    } else if path[0] == "kv"@ || path[0] == "objects"@ || path[0] == "tasks"@ || path[0]
        == "semantic"@ {
        2
    } else if path[0] == "streams"@ {
        3
    } else if path[0] == "events"@ {
        1
    } else if path[0] == "agents"@ {
        if reason == AffectedPathReason::Mailbox {
            1
        } else {
            2
        }
    } else {
        path.len()
    }
}

/// The directories above a path that a change below them affects, nearest first.
pub open spec fn ancestors(path: Components, reason: AffectedPathReason) -> Seq<Affected> {
    if path.len() <= floor(path, reason) {
        Seq::empty()
    } else {
        Seq::new(
            (path.len() - floor(path, reason)) as nat,
            |k: int| AffectedPath {
                path: path.take(path.len() - 1 - k),
                reason: AffectedPathReason::Ancestor,
            },
        )
    }
}

/// Each path followed by its ancestors, without repetition.
pub open spec fn with_ancestors(paths: Seq<Affected>) -> Seq<Affected>
    decreases paths.len(),
{
    if paths.len() == 0 {
        Seq::empty()
    } else {
        let last = paths.last();
        with_paths(
            with_path(with_ancestors(paths.drop_last()), last),
            ancestors(last.path, last.reason),
        )
    }
}

/// The paths that a change of a value makes stale.
pub open spec fn stale(fact: StorageFact<Text>) -> Result<Seq<Affected>, EventFsError<Text>> {
    match visible(fact) {
        Ok(paths) => Ok(with_ancestors(paths)),
        Err(error) => Err(error),
    }
}

/// The first place of a path in a list.
pub open spec fn place_of_path(paths: Seq<Affected>, path: Components) -> int
    decreases paths.len(),
{
    if paths.len() == 0 || paths[0].path == path {
        0
    } else {
        1 + place_of_path(paths.drop_first(), path)
    }
}

/// The list with one of its paths, and that path's ancestors, moved to the front.
pub open spec fn prioritized(paths: Seq<Affected>, source: Components) -> Seq<Affected> {
    if lists_path(paths, source) {
        let first = paths[place_of_path(paths, source)];
        with_paths(with_paths(seq![first], ancestors(first.path, first.reason)), paths)
    } else {
        paths
    }
}

/// The place of a path of the mount.
pub open spec fn place_of(path: JetStreamPath<Text>) -> Place {
    match path {
        JetStreamPath::Root => Place { fixed: Seq::empty(), tail: None },
        JetStreamPath::KvRoot => Place { fixed: seq!["kv"@], tail: None },
        JetStreamPath::KvBucket { bucket } => Place { fixed: seq!["kv"@, bucket], tail: None },
        JetStreamPath::KvKey { bucket, key } => Place { fixed: seq!["kv"@, bucket], tail: Some(key) },
        JetStreamPath::KvHistoryRoot { bucket } => Place {
            fixed: seq!["kv"@, bucket, ".history"@],
            tail: None,
        },
        JetStreamPath::KvHistoryKey { bucket, key } => Place {
            fixed: seq!["kv"@, bucket, ".history"@],
            tail: Some(key),
        },
        JetStreamPath::KvRevision { bucket, key, revision } => Place {
            fixed: seq!["kv"@, bucket, ".history"@],
            tail: Some(key + "/@"@ + decimal(revision as nat)),
        },
        JetStreamPath::StreamsRoot => Place { fixed: seq!["streams"@], tail: None },
        JetStreamPath::StreamRoot { stream } => Place { fixed: seq!["streams"@, stream], tail: None },
        JetStreamPath::StreamMessages { stream } => Place {
            fixed: seq!["streams"@, stream, "messages"@],
            tail: None,
        },
        JetStreamPath::StreamMessage { stream, sequence } => Place {
            fixed: seq!["streams"@, stream, "messages"@],
            tail: Some(decimal(sequence as nat) + ".json"@),
        },
        JetStreamPath::StreamSubjects { stream } => Place {
            fixed: seq!["streams"@, stream, "subjects"@],
            tail: None,
        },
        JetStreamPath::StreamSubject { stream, subject } => Place {
            fixed: seq!["streams"@, stream, "subjects"@],
            tail: Some(subject_file_name(subject.0)),
        },
        JetStreamPath::ObjectsRoot => Place { fixed: seq!["objects"@], tail: None },
        JetStreamPath::ObjectBucket { bucket } => Place {
            fixed: seq!["objects"@, bucket],
            tail: None,
        },
        JetStreamPath::Object { bucket, object } => Place {
            fixed: seq!["objects"@, bucket],
            tail: Some(object),
        },
        JetStreamPath::EventsRoot => Place { fixed: seq!["events"@], tail: None },
        JetStreamPath::EventLog { stream } => Place {
            fixed: seq!["events"@],
            tail: Some(stream + ".jsonl"@),
        },
        JetStreamPath::TasksRoot => Place { fixed: seq!["tasks"@], tail: None },
        JetStreamPath::TaskNamespace { namespace } => Place {
            fixed: seq!["tasks"@, namespace],
            tail: None,
        },
        JetStreamPath::Task { namespace, task } => Place {
            fixed: seq!["tasks"@, namespace],
            tail: Some(task),
        },
        JetStreamPath::AgentsRoot => Place { fixed: seq!["agents"@], tail: None },
        JetStreamPath::AgentRoot { agent } => Place { fixed: seq!["agents"@, agent], tail: None },
        JetStreamPath::AgentMailbox { agent, area } => Place {
            fixed: seq!["agents"@, agent, area.name()],
            tail: None,
        },
        JetStreamPath::AgentDirectory { agent, area } => Place {
            fixed: seq!["agents"@, agent, area.name()],
            tail: None,
        },
        JetStreamPath::AgentRecord { agent, area, path } => Place {
            fixed: seq!["agents"@, agent, area.name()],
            tail: Some(path),
        },
        JetStreamPath::SemanticRoot => Place { fixed: seq!["semantic"@], tail: None },
        JetStreamPath::SemanticArea { area } => Place {
            fixed: seq!["semantic"@, area.name()],
            tail: None,
        },
        JetStreamPath::SemanticRecord { area, path } => Place {
            fixed: seq!["semantic"@, area.name()],
            tail: Some(path),
        },
        JetStreamPath::MetadataRoot => Place { fixed: seq![".eventfs"@], tail: None },
        JetStreamPath::MetadataFile(file) => Place {
            fixed: seq![".eventfs"@, file.name()],
            tail: None,
        },
    }
}

/// The mount path of a path of the mount.
pub open spec fn mounted(path: JetStreamPath<Text>) -> Result<Components, EventFsError<Text>> {
    storage_path(place_of(path))
}

/// The paths that a change of what a path shows makes stale, that path first.
pub open spec fn stale_for_path(path: JetStreamPath<Text>) -> Result<
    Seq<Affected>,
    EventFsError<Text>,
> {
    match (mounted(path), StorageFact::of(path)) {
        (Err(error), _) => Err(error),
        (Ok(source), Some(fact)) => match stale(fact) {
            Ok(paths) => Ok(prioritized(paths, source)),
            Err(error) => Err(error),
        },
        (Ok(source), None) => Ok(
            with_paths(
                seq![AffectedPath { path: source, reason: AffectedPathReason::Exact }],
                ancestors(source, AffectedPathReason::Exact),
            ),
        ),
    }
}


// ---------------------------------------------------------------------------
// Listing
// ---------------------------------------------------------------------------

impl StorageFact {
    /// The value that a path shows: none where it shows no single value that can
    /// change.
    pub fn from_jetstream_path(path: &JetStreamPath) -> (fact: Option<Self>)
        ensures
            option_view(fact) == StorageFact::of(path@),
    {
        match path {
            JetStreamPath::KvKey { bucket, key } => Some(
                StorageFact::Kv { bucket: bucket.clone(), key: key.clone() },
            ),
            JetStreamPath::StreamSubject { stream, subject } => Some(
                StorageFact::StreamSubject {
                    stream: stream.clone(),
                    subject: subject.as_str().to_owned(),
                },
            ),
            JetStreamPath::Object { bucket, object } => Some(
                StorageFact::Object { bucket: bucket.clone(), name: object.clone() },
            ),
            _ => match MaterializedTarget::from_path(path) {
                Some(target) => Some(StorageFact::from_materialized_target(target)),
                None => None,
            },
        }
    }

    /// The value behind a materialized file.
    pub fn from_materialized_target(target: MaterializedTarget) -> (fact: Self)
        ensures
            fact@ == StorageFact::of_target(target@),
    {
        match target {
            MaterializedTarget::Kv { bucket, key } => StorageFact::Kv { bucket, key },
            MaterializedTarget::Stream { stream, subject } => StorageFact::StreamSubject {
                stream,
                subject,
            },
        }
    }
}

/// The model of a list of places.
spec fn place_models(places: Seq<StoragePlace>) -> Seq<(AffectedPathReason, Place)> {
    places.map_values(|place: StoragePlace| place@)
}

/// A place in the mount that shows a value.
struct StoragePlace<'a> {
    reason: AffectedPathReason,
    fixed: Vec<&'a str>,
    tail: Option<String>,
}

impl<'a> View for StoragePlace<'a> {
    type V = (AffectedPathReason, Place);

    closed spec fn view(&self) -> (AffectedPathReason, Place) {
        (self.reason, Place { fixed: texts(self.fixed@), tail: option_view(self.tail) })
    }
}

fn one<'a>(first: &'a str) -> (parts: Vec<&'a str>)
    ensures
        texts(parts@) == seq![first@],
{
    let parts = vec![first];
    assert(texts(parts@) =~= seq![first@]);
    parts
}

fn two<'a>(first: &'a str, second: &'a str) -> (parts: Vec<&'a str>)
    ensures
        texts(parts@) == seq![first@, second@],
{
    let parts = vec![first, second];
    assert(texts(parts@) =~= seq![first@, second@]);
    parts
}

fn three<'a>(first: &'a str, second: &'a str, third: &'a str) -> (parts: Vec<&'a str>)
    ensures
        texts(parts@) == seq![first@, second@, third@],
{
    let parts = vec![first, second, third];
    assert(texts(parts@) =~= seq![first@, second@, third@]);
    parts
}

/// The paths that show a value.
pub fn visible_paths(fact: &StorageFact) -> (result: Result<Vec<AffectedPath>, EventFsError>)
    ensures
        affected_outcome(result) == visible(fact@),
{
    match fact {
        StorageFact::Kv { bucket, key } => {
            let places = kv_places(bucket.as_str(), key.as_str());
            resolve(places.as_slice())
        },
        StorageFact::StreamSubject { stream, subject } => {
            let places = stream_places(stream.as_str(), subject.as_str());
            resolve(places.as_slice())
        },
        StorageFact::Object { bucket, name } => {
            let places = vec![
                StoragePlace {
                    reason: AffectedPathReason::Exact,
                    fixed: two("objects", bucket.as_str()),
                    tail: Some(name.clone()),
                },
            ];
            assert(place_models(places@) =~= crate::affected::places(fact@));
            resolve(places.as_slice())
        },
    }
}

fn kv_places<'a>(bucket: &'a str, key: &'a str) -> (found: Vec<StoragePlace<'a>>)
    ensures
        place_models(found@) == places(StorageFact::Kv { bucket: bucket@, key: key@ }),
{
    let mut found = vec![
        StoragePlace {
            reason: AffectedPathReason::Exact,
            fixed: two("kv", bucket),
            tail: Some(key.to_owned()),
        },
    ];
    if same_text(bucket, TASKS_BUCKET) {
        found.push(
            StoragePlace {
                reason: AffectedPathReason::Alias,
                fixed: one("tasks"),
                tail: Some(key.to_owned()),
            },
        );
    } else if same_text(bucket, AGENTS_BUCKET) {
        if let Some((agent, area, rest)) = agent_kv_alias_parts(key) {
            found.push(
                StoragePlace {
                    reason: AffectedPathReason::Alias,
                    fixed: three("agents", agent, area),
                    tail: Some(rest),
                },
            );
        }
    } else if same_text(bucket, SEMANTIC_BUCKET) {
        found.push(
            StoragePlace {
                reason: AffectedPathReason::Alias,
                fixed: one("semantic"),
                tail: Some(key.to_owned()),
            },
        );
    }
    assert(place_models(found@) =~= places(StorageFact::Kv { bucket: bucket@, key: key@ }));
    found
}

fn stream_places<'a>(stream: &'a str, subject: &'a str) -> (found: Vec<StoragePlace<'a>>)
    ensures
        place_models(found@) == places(
            StorageFact::StreamSubject { stream: stream@, subject: subject@ },
        ),
{
    let mut found = vec![
        StoragePlace {
            reason: AffectedPathReason::Exact,
            fixed: three("streams", stream, "subjects"),
            tail: Some(stream_subject_file_name_from_str(subject)),
        },
    ];
    let logged = match without_prefix(subject, "events.") {
        Some(rest) => same_text(rest, stream),
        None => false,
    };
    if logged {
        found.push(
            StoragePlace {
                reason: AffectedPathReason::Alias,
                fixed: one("events"),
                tail: Some(concat2(stream, ".jsonl")),
            },
        );
    }
    if same_text(stream, AGENTS_STREAM) {
        if let Some((agent, area)) = agent_mailbox_subject_parts(subject) {
            found.push(
                StoragePlace {
                    reason: AffectedPathReason::Mailbox,
                    fixed: three("agents", agent, area.as_str()),
                    tail: None,
                },
            );
        }
    }
    assert(place_models(found@) =~= places(
        StorageFact::StreamSubject { stream: stream@, subject: subject@ },
    ));
    found
}

/// A refusal among the first places is the refusal of all.
proof fn lemma_resolved_refusal(places: Seq<(AffectedPathReason, Place)>, upto: int)
    requires
        0 <= upto <= places.len(),
        resolved(places.take(upto)) is Err,
    ensures
        resolved(places) == resolved(places.take(upto)),
    decreases places.len(),
{
    if upto < places.len() {
        assert(places.drop_last().take(upto) =~= places.take(upto));
        lemma_resolved_refusal(places.drop_last(), upto);
    } else {
        assert(places.take(upto) =~= places);
    }
}

fn resolve(places: &[StoragePlace]) -> (result: Result<Vec<AffectedPath>, EventFsError>)
    ensures
        affected_outcome(result) == resolved(place_models(places@)),
{
    let mut paths: Vec<AffectedPath> = Vec::new();
    let ghost models = place_models(places@);
    assert(affected_models(paths@) =~= Seq::empty());
    assert(models.take(0) =~= Seq::empty());
    let mut i: usize = 0;
    while i < places.len()
        invariant
            i <= places.len(),
            models == place_models(places@),
            resolved(models.take(i as int)) == Ok::<Seq<Affected>, EventFsError<Text>>(
                affected_models(paths@),
            ),
        decreases places.len() - i,
    {
        let place = &places[i];
        let ghost upto = models.take(i + 1);
        assert(upto.drop_last() =~= models.take(i as int));
        assert(upto.last() == place@);
        let tail = match &place.tail {
            Some(tail) => Some(tail.as_str()),
            None => None,
        };
        let path = match join_storage_path(place.fixed.as_slice(), tail) {
            Ok(path) => path,
            Err(error) => {
                proof {
                    lemma_resolved_refusal(models, i + 1);
                }
                return Err(error);
            },
        };
        push_unique(&mut paths, AffectedPath::new(path, place.reason));
        i += 1;
    }
    assert(models.take(models.len() as int) =~= models);
    Ok(paths)
}

/// The paths that a change of a value makes stale.
pub fn invalidation_paths(fact: &StorageFact) -> (result: Result<Vec<AffectedPath>, EventFsError>)
    ensures
        affected_outcome(result) == stale(fact@),
{
    let shown = visible_paths(fact)?;
    let mut paths: Vec<AffectedPath> = Vec::new();
    let ghost models = affected_models(shown@);
    assert(affected_models(paths@) =~= Seq::empty());
    assert(models.take(0) =~= Seq::empty());
    let mut i: usize = 0;
    while i < shown.len()
        invariant
            i <= shown.len(),
            models == affected_models(shown@),
            affected_models(paths@) == with_ancestors(models.take(i as int)),
        decreases shown.len() - i,
    {
        let affected = &shown[i];
        let ghost upto = models.take(i + 1);
        assert(upto.drop_last() =~= models.take(i as int));
        assert(upto.last() == affected@);
        push_unique(&mut paths, affected.clone());
        push_ancestors(&mut paths, &affected.path, affected.reason);
        i += 1;
    }
    assert(models.take(models.len() as int) =~= models);
    Ok(paths)
}

/// The paths that a change of what a path shows makes stale, that path first.
pub fn invalidation_paths_for_mount_path(path: &JetStreamPath) -> (result: Result<
    Vec<AffectedPath>,
    EventFsError,
>)
    ensures
        affected_outcome(result) == stale_for_path(path@),
{
    let source = mount_path_from_jetstream_path(path)?;
    if let Some(fact) = StorageFact::from_jetstream_path(path) {
        let paths = invalidation_paths(&fact)?;
        return Ok(prioritize_source_path(paths, &source));
    }
    let mut paths = vec![AffectedPath::new(source.clone(), AffectedPathReason::Exact)];
    assert(affected_models(paths@) =~= seq![
        AffectedPath { path: source@, reason: AffectedPathReason::Exact },
    ]);
    push_ancestors(&mut paths, &source, AffectedPathReason::Exact);
    Ok(paths)
}

/// The mount path of a path of the mount.
pub fn mount_path_from_jetstream_path(path: &JetStreamPath) -> (result: Result<
    MountPath,
    EventFsError,
>)
    ensures
        outcome(result) == mounted(path@),
{
    match path {
        JetStreamPath::Root => {
            assert(checked_components(Components::empty()) == Ok::<Components, EventFsError<Text>>(
                Components::empty(),
            ));
            Ok(MountPath::root())
        },
        JetStreamPath::KvRoot => join_storage_path(one("kv").as_slice(), None),
        JetStreamPath::KvBucket { bucket } => join_storage_path(
            two("kv", bucket.as_str()).as_slice(),
            None,
        ),
        JetStreamPath::KvKey { bucket, key } => join_storage_path(
            two("kv", bucket.as_str()).as_slice(),
            Some(key.as_str()),
        ),
        JetStreamPath::KvHistoryRoot { bucket } => join_storage_path(
            three("kv", bucket.as_str(), ".history").as_slice(),
            None,
        ),
        JetStreamPath::KvHistoryKey { bucket, key } => join_storage_path(
            three("kv", bucket.as_str(), ".history").as_slice(),
            Some(key.as_str()),
        ),
        JetStreamPath::KvRevision { bucket, key, revision } => {
            let number = decimal_text(*revision as u128);
            let tail = concat3(key.as_str(), "/@", number.as_str());
            join_storage_path(
                three("kv", bucket.as_str(), ".history").as_slice(),
                Some(tail.as_str()),
            )
        },
        JetStreamPath::StreamsRoot => join_storage_path(one("streams").as_slice(), None),
        JetStreamPath::StreamRoot { stream } => join_storage_path(
            two("streams", stream.as_str()).as_slice(),
            None,
        ),
        JetStreamPath::StreamMessages { stream } => join_storage_path(
            three("streams", stream.as_str(), "messages").as_slice(),
            None,
        ),
        JetStreamPath::StreamMessage { stream, sequence } => {
            let number = decimal_text(*sequence as u128);
            let tail = concat2(number.as_str(), ".json");
            join_storage_path(
                three("streams", stream.as_str(), "messages").as_slice(),
                Some(tail.as_str()),
            )
        },
        JetStreamPath::StreamSubjects { stream } => join_storage_path(
            three("streams", stream.as_str(), "subjects").as_slice(),
            None,
        ),
        JetStreamPath::StreamSubject { stream, subject } => {
            let file = stream_subject_file_name_from_str(subject.as_str());
            join_storage_path(
                three("streams", stream.as_str(), "subjects").as_slice(),
                Some(file.as_str()),
            )
        },
        JetStreamPath::ObjectsRoot => join_storage_path(one("objects").as_slice(), None),
        JetStreamPath::ObjectBucket { bucket } => join_storage_path(
            two("objects", bucket.as_str()).as_slice(),
            None,
        ),
        JetStreamPath::Object { bucket, object } => join_storage_path(
            two("objects", bucket.as_str()).as_slice(),
            Some(object.as_str()),
        ),
        JetStreamPath::EventsRoot => join_storage_path(one("events").as_slice(), None),
        JetStreamPath::EventLog { stream } => {
            let file = concat2(stream.as_str(), ".jsonl");
            join_storage_path(one("events").as_slice(), Some(file.as_str()))
        },
        JetStreamPath::TasksRoot => join_storage_path(one("tasks").as_slice(), None),
        JetStreamPath::TaskNamespace { namespace } => join_storage_path(
            two("tasks", namespace.as_str()).as_slice(),
            None,
        ),
        JetStreamPath::Task { namespace, task } => join_storage_path(
            two("tasks", namespace.as_str()).as_slice(),
            Some(task.as_str()),
        ),
        JetStreamPath::AgentsRoot => join_storage_path(one("agents").as_slice(), None),
        JetStreamPath::AgentRoot { agent } => join_storage_path(
            two("agents", agent.as_str()).as_slice(),
            None,
        ),
        JetStreamPath::AgentMailbox { agent, area } => join_storage_path(
            three("agents", agent.as_str(), area.as_str()).as_slice(),
            None,
        ),
        JetStreamPath::AgentDirectory { agent, area } => join_storage_path(
            three("agents", agent.as_str(), area.as_str()).as_slice(),
            None,
        ),
        JetStreamPath::AgentRecord { agent, area, path } => join_storage_path(
            three("agents", agent.as_str(), area.as_str()).as_slice(),
            Some(path.as_str()),
        ),
        JetStreamPath::SemanticRoot => join_storage_path(one("semantic").as_slice(), None),
        JetStreamPath::SemanticArea { area } => join_storage_path(
            two("semantic", area.as_str()).as_slice(),
            None,
        ),
        JetStreamPath::SemanticRecord { area, path } => join_storage_path(
            two("semantic", area.as_str()).as_slice(),
            Some(path.as_str()),
        ),
        JetStreamPath::MetadataRoot => join_storage_path(one(".eventfs").as_slice(), None),
        JetStreamPath::MetadataFile(file) => join_storage_path(
            two(".eventfs", file.file_name()).as_slice(),
            None,
        ),
    }
}

fn push_ancestors(paths: &mut Vec<AffectedPath>, path: &MountPath, reason: AffectedPathReason)
    ensures
        affected_models(final(paths)@) == with_paths(
            affected_models(old(paths)@),
            ancestors(path@, reason),
        ),
{
    let components = path.components();
    let lowest = ancestor_floor(components.as_slice(), reason);
    let ghost more = ancestors(path@, reason);
    assert(texts(components@).len() == components@.len());
    if components.len() <= lowest {
        return;
    }
    let mut len: usize = components.len();
    assert(more.take(0) =~= Seq::empty());
    while len > lowest
        invariant
            lowest <= len <= components.len(),
            texts(components@) == path@,
            components@.len() == path@.len(),
            mount_components(path@),
            lowest == floor(path@, reason),
            lowest < components.len(),
            more == ancestors(path@, reason),
            affected_models(paths@) == with_paths(
                affected_models(old(paths)@),
                more.take(components.len() - len),
            ),
        decreases len,
    {
        let ghost k = components.len() - len;
        len -= 1;
        let front = slice_subrange(components.as_slice(), 0, len);
        assert(texts(front@) =~= path@.take(len as int));
        assert(more[k].path =~= path@.take(len as int));
        let ancestor = MountPath::of_prefix(front, path);
        push_unique(paths, AffectedPath::new(ancestor, AffectedPathReason::Ancestor));
        assert(more.take(k + 1).drop_last() =~= more.take(k));
        assert(more.take(k + 1).last() == more[k]);
    }
    assert(more.take(more.len() as int) =~= more);
}

fn ancestor_floor(components: &[&str], reason: AffectedPathReason) -> (lowest: usize)
    ensures
        lowest == floor(texts(components@), reason),
{
    if components.len() == 0 {
        return 0;
    }
    let first = components[0];
    assert(texts(components@)[0] == first@);
    if same_text(first, "kv") || same_text(first, "objects") || same_text(first, "tasks")
        || same_text(first, "semantic") {
        2
    } else if same_text(first, "streams") {
        3
    } else if same_text(first, "events") {
        1
    } else if same_text(first, "agents") {
        if matches!(reason, AffectedPathReason::Mailbox) {
            1
        } else {
            2
        }
    } else {
        components.len()
    }
}

fn join_storage_path(fixed: &[&str], tail: Option<&str>) -> (result: Result<MountPath, EventFsError>)
    ensures
        outcome(result) == storage_path(
            Place { fixed: texts(fixed@), tail: option_text(tail) },
        ),
{
    let mut components: Vec<&str> = Vec::new();
    let mut i: usize = 0;
    while i < fixed.len()
        invariant
            i <= fixed.len(),
            components@ == fixed@.take(i as int),
        decreases fixed.len() - i,
    {
        components.push(fixed[i]);
        assert(fixed@.take(i + 1) =~= fixed@.take(i as int).push(fixed@[i as int]));
        i += 1;
    }
    assert(components@ =~= fixed@);
    if let Some(tail) = tail {
        if tail.is_empty() {
            return Err(EventFsError::invalid_path("missing path tail"));
        }
        let mut parts = split_text(tail, '/');
        let ghost back = parts@;
        components.append(&mut parts);
        assert(texts(components@) =~= texts(fixed@) + texts(back));
    }
    MountPath::from_components(components.as_slice())
}

fn push_unique(paths: &mut Vec<AffectedPath>, affected: AffectedPath)
    ensures
        affected_models(final(paths)@) == with_path(affected_models(old(paths)@), affected@),
{
    if find_path(paths.as_slice(), &affected.path).is_none() {
        let ghost before = paths@;
        paths.push(affected);
        assert(affected_models(paths@) =~= affected_models(before).push(affected@));
    }
}

/// The first index of a path in a list.
fn find_path(paths: &[AffectedPath], path: &MountPath) -> (index: Option<usize>)
    ensures
        match index {
            Some(index) => {
                &&& index < paths.len()
                &&& affected_models(paths@)[index as int].path == path@
                &&& lists_path(affected_models(paths@), path@)
                &&& index == place_of_path(affected_models(paths@), path@)
            },
            None => !lists_path(affected_models(paths@), path@),
        },
{
    let ghost models = affected_models(paths@);
    let mut i: usize = 0;
    assert(models.skip(0) =~= models);
    while i < paths.len()
        invariant
            i <= paths.len(),
            models == affected_models(paths@),
            forall|k: int| 0 <= k < i ==> (#[trigger] models[k]).path != path@,
            place_of_path(models, path@) == i + place_of_path(models.skip(i as int), path@),
        decreases paths.len() - i,
    {
        assert(models[i as int] == paths@[i as int]@);
        if paths[i].path.same(path) {
            return Some(i);
        }
        assert(models.skip(i as int).drop_first() =~= models.skip(i + 1));
        i += 1;
    }
    None
}

fn prioritize_source_path(paths: Vec<AffectedPath>, source: &MountPath) -> (reordered: Vec<
    AffectedPath,
>)
    ensures
        affected_models(reordered@) == prioritized(affected_models(paths@), source@),
{
    let index = match find_path(paths.as_slice(), source) {
        Some(index) => index,
        None => {
            return paths;
        },
    };
    let first = paths[index].clone();
    let ghost models = affected_models(paths@);
    assert(first@ == models[index as int]);
    let mut reordered = vec![first.clone()];
    assert(affected_models(reordered@) =~= seq![first@]);
    push_ancestors(&mut reordered, &first.path, first.reason);
    let ghost front = affected_models(reordered@);
    let mut i: usize = 0;
    assert(models.take(0) =~= Seq::empty());
    while i < paths.len()
        invariant
            i <= paths.len(),
            models == affected_models(paths@),
            affected_models(reordered@) == with_paths(front, models.take(i as int)),
        decreases paths.len() - i,
    {
        push_unique(&mut reordered, paths[i].clone());
        assert(models.take(i + 1).drop_last() =~= models.take(i as int));
        assert(models.take(i + 1).last() == paths@[i as int]@);
        i += 1;
    }
    assert(models.take(models.len() as int) =~= models);
    reordered
}

/// The agent, the area and the rest of a key of an agent's file.
fn agent_kv_alias_parts<'a>(key: &'a str) -> (parts: Option<(&'a str, &'a str, String)>)
    ensures
        match parts {
            Some((agent, area, rest)) => agent_key_parts(key@) == Some((agent@, area@, rest@)),
            None => agent_key_parts(key@) is None,
        },
{
    let parts = split_text(key, '/');
    assert(texts(parts@).len() == parts@.len());
    if parts.len() < 3 {
        return None;
    }
    assert(texts(parts@)[0] == parts@[0]@);
    assert(texts(parts@)[1] == parts@[1]@);
    let tail = slice_subrange(parts.as_slice(), 2, parts.len());
    assert(texts(tail@) =~= texts(parts@).skip(2));
    let rest = join_text(tail, '/');
    if parts[0].is_empty() || parts[1].is_empty() || rest.as_str().is_empty() {
        None
    } else {
        Some((parts[0], parts[1], rest))
    }
}

/// The agent and the area of a mailbox's subject.
fn agent_mailbox_subject_parts<'a>(subject: &'a str) -> (parts: Option<(&'a str, AgentArea)>)
    ensures
        match parts {
            Some((agent, area)) => mailbox_parts(subject@) == Some((agent@, area)),
            None => mailbox_parts(subject@) is None,
        },
{
    let parts = split_text(subject, '.');
    assert(texts(parts@).len() == parts@.len());
    if parts.len() != 3 {
        return None;
    }
    assert(texts(parts@)[0] == parts@[0]@);
    assert(texts(parts@)[1] == parts@[1]@);
    assert(texts(parts@)[2] == parts@[2]@);
    let agent = parts[1];
    if !same_text(parts[0], "agents") || agent.is_empty() || is_reserved_kv_key(agent) {
        return None;
    }
    match AgentArea::parse(parts[2]) {
        Some(area) => if area.is_mailbox() {
            Some((agent, area))
        } else {
            None
        },
        None => None,
    }
}

} // verus!
