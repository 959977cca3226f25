//! Where the task, agent, semantic and event files live: the bucket and key, or the
//! stream and subject, behind each of them.

use vstd::prelude::*;

use crate::path::{AgentArea, JetStreamPath};
use crate::text::{concat2, concat3, option_view, Text};

pub use crate::file_names::{stream_subject_file_name, stream_subject_file_name_from_str};

verus! {

/// The bucket of the task files.
pub const TASKS_BUCKET: &'static str = "EVENTFS_TASKS";

/// The bucket of the agents' tasks and memory.
pub const AGENTS_BUCKET: &'static str = "EVENTFS_AGENTS";

/// The stream of the agents' mailboxes.
pub const AGENTS_STREAM: &'static str = "EVENTFS_AGENTS";

/// The bucket of the semantic files.
pub const SEMANTIC_BUCKET: &'static str = "EVENTFS_SEMANTIC";

/// What a materialized file stands for. `S` is `String` in executable code and
/// [`Text`] in contracts.
#[derive(Clone, Debug, PartialEq, Eq)]
pub enum MaterializedTarget<S = String> {
    Kv { bucket: S, key: S },
    Stream { stream: S, subject: S },
}

impl View for MaterializedTarget<String> {
    type V = MaterializedTarget<Text>;

    open spec fn view(&self) -> MaterializedTarget<Text> {
        match *self {
            MaterializedTarget::Kv { bucket, key } => MaterializedTarget::Kv {
                bucket: bucket@,
                key: key@,
            },
            MaterializedTarget::Stream { stream, subject } => MaterializedTarget::Stream {
                stream: stream@,
                subject: subject@,
            },
        }
    }
}

/// The stream and subject of a mailbox.
#[derive(Clone, Debug, PartialEq, Eq)]
pub struct AgentSubject<S = String> {
    pub stream: S,
    pub subject: S,
}

impl View for AgentSubject<String> {
    type V = AgentSubject<Text>;

    open spec fn view(&self) -> AgentSubject<Text> {
        AgentSubject { stream: self.stream@, subject: self.subject@ }
    }
}

impl AgentSubject<Text> {
    /// The subject of a mailbox: none where the area is no mailbox.
    pub open spec fn of(agent: Text, area: AgentArea) -> Option<Self> {
        if area.mailbox() {
            Some(
                AgentSubject {
                    stream: AGENTS_STREAM@,
                    subject: "agents."@ + agent + "."@ + area.name(),
                },
            )
        } else {
            None
        }
    }
}

impl MaterializedTarget<Text> {
    /// What a path stands for: none where it is no materialized file.
    pub open spec fn of(path: JetStreamPath<Text>) -> Option<Self> {
        match path {
            JetStreamPath::EventLog { stream } => Some(
                MaterializedTarget::Stream { stream, subject: "events."@ + stream },
            ),
            JetStreamPath::Task { namespace, task } => Some(
                MaterializedTarget::Kv { bucket: TASKS_BUCKET@, key: namespace + "/"@ + task },
            ),
            JetStreamPath::AgentMailbox { agent, area } => match AgentSubject::of(agent, area) {
                Some(subject) => Some(
                    MaterializedTarget::Stream { stream: subject.stream, subject: subject.subject },
                ),
                None => None,
            },
            JetStreamPath::AgentRecord { agent, area, path } => Some(
                MaterializedTarget::Kv {
                    bucket: AGENTS_BUCKET@,
                    key: agent + "/"@ + area.name() + "/"@ + path,
                },
            ),
            JetStreamPath::SemanticRecord { area, path } => Some(
                MaterializedTarget::Kv { bucket: SEMANTIC_BUCKET@, key: area.name() + "/"@ + path },
            ),
            _ => None,
        }
    }
}

impl MaterializedTarget {
    /// What a path stands for: none where it is no materialized file.
    pub fn from_path(path: &JetStreamPath) -> (target: Option<Self>)
        ensures
            option_view(target) == MaterializedTarget::of(path@),
    {
        match path {
            JetStreamPath::EventLog { stream } => Some(
                MaterializedTarget::Stream {
                    stream: stream.clone(),
                    subject: concat2("events.", stream.as_str()),
                },
            ),
            JetStreamPath::Task { namespace, task } => Some(
                MaterializedTarget::Kv {
                    bucket: TASKS_BUCKET.to_owned(),
                    key: concat3(namespace.as_str(), "/", task.as_str()),
                },
            ),
            JetStreamPath::AgentMailbox { agent, area } => match agent_subject(
                agent.as_str(),
                *area,
            ) {
                Some(subject) => Some(
                    MaterializedTarget::Stream { stream: subject.stream, subject: subject.subject },
                ),
                None => None,
            },
            JetStreamPath::AgentRecord { agent, area, path } => {
                let directory = concat3(agent.as_str(), "/", area.as_str());
                Some(
                    MaterializedTarget::Kv {
                        bucket: AGENTS_BUCKET.to_owned(),
                        key: concat3(directory.as_str(), "/", path.as_str()),
                    },
                )
            },
            JetStreamPath::SemanticRecord { area, path } => Some(
                MaterializedTarget::Kv {
                    bucket: SEMANTIC_BUCKET.to_owned(),
                    key: concat3(area.as_str(), "/", path.as_str()),
                },
            ),
            _ => None,
        }
    }
}

/// The subject of a mailbox: none where the area is no mailbox.
pub fn agent_subject(agent: &str, area: AgentArea) -> (subject: Option<AgentSubject>)
    ensures
        option_view(subject) == AgentSubject::of(agent@, area),
{
    if !area.is_mailbox() {
        return None;
    }
    let owner = concat3("agents.", agent, ".");
    Some(
        AgentSubject {
            stream: AGENTS_STREAM.to_owned(),
            subject: concat2(owner.as_str(), area.as_str()),
        },
    )
}

} // verus!
