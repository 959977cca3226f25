//! Every path that shows a value leads back to that value.

use vstd::prelude::*;

use crate::affected::{
    agent_key_parts, lists_path, mailbox_parts, mounted, places, storage_path, visible, StorageFact,
};
use crate::affected_laws::{comes_from_place, lemma_resolved};
use crate::errors::EventFsError;
use crate::file_names::{
    law_subject_file_name_stands_for_no_other, lemma_subject_file_name_chars, plain_char,
    subject_file_name, subject_of_file_name,
};
use crate::mount_paths::{mount_components, mount_text, Components};
use crate::path::{path_of_components, stream_of_event_file, JetStreamPath};
use crate::path_laws::{
    law_mount_path_stands_for_its_path, lemma_agent_area_name, lemma_components_of_mount_text,
    lemma_dispatch, lemma_root_names_differ,
};
use crate::plan::{planned, Action, FileIntent, JetStreamAction};
use crate::subjects::{AGENTS_BUCKET, AGENTS_STREAM, SEMANTIC_BUCKET, TASKS_BUCKET};
use crate::text::{
    join, lemma_join_first, lemma_join_split, lemma_split_join, lemma_split_pieces,
    lemma_split_without, split, strip_prefix, Text,
};

verus! {

/// Whether what components stand for, if it shows a value that can change, shows the
/// given one.
#[verifier::opaque]
spec fn leads_back(components: Components, fact: StorageFact<Text>) -> bool {
    path_of_components(components) matches Ok(path) ==> (StorageFact::of(path) matches Some(shown)
        ==> shown == fact)
}

#[verifier::spinoff_prover]
proof fn lemma_key_leads_back(bucket: Text, key: Text)
    ensures
        leads_back(seq!["kv"@, bucket] + split(key, '/'), StorageFact::Kv { bucket, key }),
{
    reveal(leads_back);
    let parts = split(key, '/');
    let c = seq!["kv"@, bucket] + parts;
    lemma_split_pieces(key, '/');
    lemma_join_split(key, '/');
    lemma_dispatch(c);
    assert(c.skip(2) =~= parts);
}

#[verifier::spinoff_prover]
proof fn lemma_object_leads_back(bucket: Text, name: Text)
    ensures
        leads_back(seq!["objects"@, bucket] + split(name, '/'), StorageFact::Object { bucket, name }),
{
    reveal(leads_back);
    let parts = split(name, '/');
    let c = seq!["objects"@, bucket] + parts;
    lemma_split_pieces(name, '/');
    lemma_join_split(name, '/');
    lemma_dispatch(c);
    assert(c.skip(2) =~= parts);
}

#[verifier::spinoff_prover]
proof fn lemma_task_leads_back(key: Text)
    ensures
        leads_back(
            seq!["tasks"@] + split(key, '/'),
            StorageFact::Kv { bucket: TASKS_BUCKET@, key },
        ),
{
    reveal(leads_back);
    let parts = split(key, '/');
    let c = seq!["tasks"@] + parts;
    lemma_split_pieces(key, '/');
    lemma_join_split(key, '/');
    lemma_dispatch(c);
    reveal_strlit("/");
    if parts.len() == 2 {
        lemma_join_first(parts, '/');
        assert(join(parts.skip(1), '/') == parts[1]);
        assert(key =~= parts[0] + "/"@ + parts[1]);
    }
}

#[verifier::spinoff_prover]
proof fn lemma_semantic_record_leads_back(key: Text)
    ensures
        leads_back(
            seq!["semantic"@] + split(key, '/'),
            StorageFact::Kv { bucket: SEMANTIC_BUCKET@, key },
        ),
{
    reveal(leads_back);
    let parts = split(key, '/');
    let c = seq!["semantic"@] + parts;
    lemma_split_pieces(key, '/');
    lemma_join_split(key, '/');
    lemma_dispatch(c);
    reveal_strlit("/");
    if parts.len() >= 2 {
        lemma_join_first(parts, '/');
        assert(c.skip(2) =~= parts.skip(1));
        assert(key =~= parts[0] + "/"@ + join(parts.skip(1), '/'));
    }
}

#[verifier::spinoff_prover]
proof fn lemma_agent_record_leads_back(key: Text)
    ensures
        agent_key_parts(key) matches Some((agent, area, rest)) ==> leads_back(
            seq!["agents"@, agent, area] + split(rest, '/'),
            StorageFact::Kv { bucket: AGENTS_BUCKET@, key },
        ),
{
    reveal(leads_back);
    if let Some((agent, area, rest)) = agent_key_parts(key) {
        let parts = split(key, '/');
        let tail = parts.skip(2);
        let c = seq!["agents"@, agent, area] + split(rest, '/');
        lemma_split_pieces(key, '/');
        lemma_join_split(key, '/');
        assert forall|i: int| 0 <= i < tail.len() implies !(#[trigger] tail[i]).contains('/') by {
            assert(tail[i] == parts[i + 2]);
        }
        lemma_split_join(tail, '/');
        lemma_dispatch(c);
        reveal_strlit("/");
        lemma_join_first(parts, '/');
        lemma_join_first(parts.skip(1), '/');
        assert(parts.skip(1).skip(1) =~= tail);
        assert(c.skip(3) =~= tail);
        assert(key =~= agent + "/"@ + area + "/"@ + rest);
    }
}

#[verifier::spinoff_prover]
proof fn lemma_subject_leads_back(stream: Text, subject: Text)
    ensures
        leads_back(
            seq!["streams"@, stream, "subjects"@] + split(subject_file_name(subject), '/'),
            StorageFact::StreamSubject { stream, subject },
        ),
{
    reveal(leads_back);
    let name = subject_file_name(subject);
    let c = seq!["streams"@, stream, "subjects"@] + split(name, '/');
    lemma_subject_file_name_chars(subject);
    if name.contains('/') {
        let k = choose|k: int| 0 <= k < name.len() && name[k] == '/';
        assert(plain_char(name[k]));
    }
    lemma_split_without(name, '/');
    lemma_dispatch(c);
    law_subject_file_name_stands_for_no_other(subject);
    reveal_strlit("subjects");
    reveal_strlit("messages");
    assert("subjects"@[0] != "messages"@[0]);
}

#[verifier::spinoff_prover]
proof fn lemma_event_log_leads_back(stream: Text, subject: Text)
    requires
        strip_prefix(subject, "events."@) == Some(stream),
    ensures
        leads_back(
            seq!["events"@] + split(stream + ".jsonl"@, '/'),
            StorageFact::StreamSubject { stream, subject },
        ),
{
    reveal(leads_back);
    let name = stream + ".jsonl"@;
    let parts = split(name, '/');
    let c = seq!["events"@] + parts;
    lemma_split_pieces(name, '/');
    lemma_join_split(name, '/');
    lemma_dispatch(c);
    if parts.len() == 1 {
        assert(c[1] == name);
        assert(name.take(name.len() - ".jsonl"@.len()) =~= stream);
        assert(stream_of_event_file(name) matches Ok(found) ==> found == stream);
    }
    assert(subject =~= "events."@ + stream);
}

#[verifier::spinoff_prover]
proof fn lemma_mailbox_leads_back(subject: Text)
    ensures
        mailbox_parts(subject) matches Some((agent, area)) ==> leads_back(
            seq!["agents"@, agent, area.name()],
            StorageFact::StreamSubject { stream: AGENTS_STREAM@, subject },
        ),
{
    reveal(leads_back);
    if let Some((agent, area)) = mailbox_parts(subject) {
        let c = seq!["agents"@, agent, area.name()];
        lemma_agent_area_name(area);
        lemma_dispatch(c);
        assert(c.skip(3).len() == 0);
        lemma_mailbox_text(subject);
    }
}

/// The place of a value leads back to the value.
#[verifier::spinoff_prover]
proof fn lemma_place_leads_back(fact: StorageFact<Text>, i: int)
    requires
        0 <= i < places(fact).len(),
    ensures
        storage_path(places(fact)[i].1) matches Ok(path) ==> leads_back(path, fact)
            && mount_components(path),
{
    match fact {
        StorageFact::Kv { bucket, key } => {
            lemma_key_leads_back(bucket, key);
            lemma_task_leads_back(key);
            lemma_semantic_record_leads_back(key);
            lemma_agent_record_leads_back(key);
        },
        StorageFact::StreamSubject { stream, subject } => {
            lemma_subject_leads_back(stream, subject);
            if strip_prefix(subject, "events."@) == Some(stream) {
                lemma_event_log_leads_back(stream, subject);
            }
            lemma_mailbox_leads_back(subject);
        },
        StorageFact::Object { bucket, name } => {
            lemma_object_leads_back(bucket, name);
        },
    }
}

/// Every path under which a value is shown, its own or that of a file that is
/// materialized from it, leads back to that very value: where the text of the path
/// stands for something that shows a value that can change, it shows this one.
pub proof fn law_shown_paths_lead_back_to_the_value(
    fact: StorageFact<Text>,
    path: Components,
    shown: JetStreamPath<Text>,
)
    requires
        visible(fact) matches Ok(paths) && lists_path(paths, path),
        JetStreamPath::parsed(mount_text(path)) == Ok::<JetStreamPath<Text>, EventFsError<Text>>(
            shown,
        ),
        StorageFact::of(shown) is Some,
    ensures
        StorageFact::of(shown) == Some(fact),
{
    reveal(leads_back);
    let found = places(fact);
    lemma_resolved(found);
    let paths = visible(fact)->Ok_0;
    let k = choose|k: int| 0 <= k < paths.len() && (#[trigger] paths[k]).path == path;
    assert(comes_from_place(paths[k], found));
    let i = choose|i: int|
        0 <= i < found.len() && storage_path((#[trigger] found[i]).1) == Ok::<
            Components,
            EventFsError<Text>,
        >(path) && found[i].0 == paths[k].reason;
    lemma_place_leads_back(fact, i);
    lemma_components_of_mount_text(path);
}

/// A path whose mount path is among those that show a value shows that value, or none
/// that can change: no path shows two values.
pub proof fn law_no_path_shows_two_values(fact: StorageFact<Text>, path: JetStreamPath<Text>)
    requires
        path.valid(),
        StorageFact::of(path) is Some,
        mounted(path) matches Ok(source) && (visible(fact) matches Ok(paths) && lists_path(
            paths,
            source,
        )),
    ensures
        StorageFact::of(path) == Some(fact),
{
    law_mount_path_stands_for_its_path(path);
    law_shown_paths_lead_back_to_the_value(fact, mounted(path)->Ok_0, path);
}

// ---------------------------------------------------------------------------
// Values share no path
// ---------------------------------------------------------------------------

/// The value that components can show, if they show one.
#[verifier::opaque]
spec fn value_at(c: Components) -> StorageFact<Text> {
    if c[0] == "kv"@ {
        StorageFact::Kv { bucket: c[1], key: join(c.skip(2), '/') }
    } else if c[0] == "objects"@ {
        StorageFact::Object { bucket: c[1], name: join(c.skip(2), '/') }
    } else if c[0] == "streams"@ {
        StorageFact::StreamSubject {
            stream: c[1],
            subject: match subject_of_file_name(c[3]) {
                Ok(subject) => subject,
                Err(_) => Seq::empty(),
            },
        }
    } else if c[0] == "events"@ {
        let name = join(c.skip(1), '/');
        let stream = name.take(name.len() - ".jsonl"@.len());
        StorageFact::StreamSubject { stream, subject: "events."@ + stream }
    } else if c[0] == "tasks"@ {
        StorageFact::Kv { bucket: TASKS_BUCKET@, key: join(c.skip(1), '/') }
    } else if c[0] == "semantic"@ {
        StorageFact::Kv { bucket: SEMANTIC_BUCKET@, key: join(c.skip(1), '/') }
    } else if c.len() == 3 {
        StorageFact::StreamSubject {
            stream: AGENTS_STREAM@,
            subject: "agents."@ + c[1] + "."@ + c[2],
        }
    } else {
        StorageFact::Kv { bucket: AGENTS_BUCKET@, key: join(c.skip(1), '/') }
    }
}

#[verifier::spinoff_prover]
proof fn lemma_value_of_names(first: Text, name: Text)
    ensures
        value_at(seq!["kv"@, first] + split(name, '/')) == (StorageFact::Kv {
            bucket: first,
            key: name,
        }),
        value_at(seq!["objects"@, first] + split(name, '/')) == (StorageFact::Object {
            bucket: first,
            name,
        }),
        value_at(seq!["tasks"@] + split(name, '/')) == (StorageFact::Kv {
            bucket: TASKS_BUCKET@,
            key: name,
        }),
        value_at(seq!["semantic"@] + split(name, '/')) == (StorageFact::Kv {
            bucket: SEMANTIC_BUCKET@,
            key: name,
        }),
{
    reveal(value_at);
    lemma_root_names_differ();
    lemma_join_split(name, '/');
    assert((seq!["kv"@, first] + split(name, '/')).skip(2) =~= split(name, '/'));
    assert((seq!["objects"@, first] + split(name, '/')).skip(2) =~= split(name, '/'));
    assert((seq!["tasks"@] + split(name, '/')).skip(1) =~= split(name, '/'));
    assert((seq!["semantic"@] + split(name, '/')).skip(1) =~= split(name, '/'));
}

#[verifier::spinoff_prover]
proof fn lemma_value_of_agent_record(key: Text)
    ensures
        agent_key_parts(key) matches Some((agent, area, rest)) ==> value_at(
            seq!["agents"@, agent, area] + split(rest, '/'),
        ) == (StorageFact::Kv { bucket: AGENTS_BUCKET@, key }),
{
    reveal(value_at);
    lemma_root_names_differ();
    if let Some((agent, area, rest)) = agent_key_parts(key) {
        let parts = split(key, '/');
        let tail = parts.skip(2);
        let c = seq!["agents"@, agent, area] + split(rest, '/');
        lemma_split_pieces(key, '/');
        lemma_join_split(key, '/');
        assert forall|i: int| 0 <= i < tail.len() implies !(#[trigger] tail[i]).contains('/') by {
            assert(tail[i] == parts[i + 2]);
        }
        lemma_split_join(tail, '/');
        assert(c.skip(1) =~= parts);
    }
}

#[verifier::spinoff_prover]
proof fn lemma_value_of_subject(stream: Text, subject: Text)
    ensures
        value_at(seq!["streams"@, stream, "subjects"@] + split(subject_file_name(subject), '/')) == (
        StorageFact::StreamSubject { stream, subject }),
        strip_prefix(subject, "events."@) == Some(stream) ==> value_at(
            seq!["events"@] + split(stream + ".jsonl"@, '/'),
        ) == (StorageFact::StreamSubject { stream, subject }),
        mailbox_parts(subject) matches Some((agent, area)) ==> value_at(
            seq!["agents"@, agent, area.name()],
        ) == (StorageFact::StreamSubject { stream: AGENTS_STREAM@, subject }),
{
    reveal(value_at);
    lemma_root_names_differ();
    let name = subject_file_name(subject);
    lemma_subject_file_name_chars(subject);
    if name.contains('/') {
        let k = choose|k: int| 0 <= k < name.len() && name[k] == '/';
        assert(plain_char(name[k]));
    }
    lemma_split_without(name, '/');
    law_subject_file_name_stands_for_no_other(subject);
    assert(subject.len() == 0 ==> subject =~= Seq::empty());
    let log = stream + ".jsonl"@;
    lemma_join_split(log, '/');
    assert((seq!["events"@] + split(log, '/')).skip(1) =~= split(log, '/'));
    assert(log.take(log.len() - ".jsonl"@.len()) =~= stream);
    if strip_prefix(subject, "events."@) == Some(stream) {
        assert(subject =~= "events."@ + stream);
    }
    if mailbox_parts(subject) is Some {
        lemma_mailbox_text(subject);
    }
}

/// The subject of a mailbox is made of the agent and the area.
proof fn lemma_mailbox_text(subject: Text)
    requires
        mailbox_parts(subject) is Some,
    ensures
        mailbox_parts(subject) matches Some((agent, area)) && subject == "agents."@ + agent + "."@
            + area.name(),
{
    let parts = split(subject, '.');
    let (agent, area) = mailbox_parts(subject).unwrap();
    lemma_join_split(subject, '.');
    reveal_strlit(".");
    reveal_strlit("agents.");
    reveal_strlit("agents");
    lemma_join_first(parts, '.');
    lemma_join_first(parts.skip(1), '.');
    assert(parts.skip(1).skip(1)[0] == parts[2]);
    assert(join(parts.skip(1).skip(1), '.') == parts[2]);
    assert(area.name() == parts[2]);
    assert(subject =~= "agents."@ + agent + "."@ + area.name());
}

/// What the path of a place of a value can show is the value.
#[verifier::spinoff_prover]
proof fn lemma_value_at_place(fact: StorageFact<Text>, i: int)
    requires
        0 <= i < places(fact).len(),
    ensures
        storage_path(places(fact)[i].1) matches Ok(path) ==> value_at(path) == fact,
{
    match fact {
        StorageFact::Kv { bucket, key } => {
            lemma_value_of_names(bucket, key);
            lemma_value_of_agent_record(key);
        },
        StorageFact::StreamSubject { stream, subject } => {
            lemma_value_of_subject(stream, subject);
        },
        StorageFact::Object { bucket, name } => {
            lemma_value_of_names(bucket, name);
        },
    }
}

proof fn lemma_value_at_shown_path(fact: StorageFact<Text>, path: Components)
    requires
        visible(fact) matches Ok(paths) && lists_path(paths, path),
    ensures
        value_at(path) == fact,
{
    let found = places(fact);
    lemma_resolved(found);
    let paths = visible(fact)->Ok_0;
    let k = choose|k: int| 0 <= k < paths.len() && (#[trigger] paths[k]).path == path;
    assert(comes_from_place(paths[k], found));
    let i = choose|i: int|
        0 <= i < found.len() && storage_path((#[trigger] found[i]).1) == Ok::<
            Components,
            EventFsError<Text>,
        >(path) && found[i].0 == paths[k].reason;
    lemma_value_at_place(fact, i);
}

/// Different values are shown at different paths, whether or not the grammar accepts
/// those paths.
pub proof fn law_values_share_no_path(
    left: StorageFact<Text>,
    right: StorageFact<Text>,
    path: Components,
)
    requires
        visible(left) matches Ok(paths) && lists_path(paths, path),
        visible(right) matches Ok(paths) && lists_path(paths, path),
    ensures
        left == right,
{
    lemma_value_at_shown_path(left, path);
    lemma_value_at_shown_path(right, path);
}

// ---------------------------------------------------------------------------
// What is written is what is shown
// ---------------------------------------------------------------------------

/// The value that an action writes, or reads as it stands now.
pub open spec fn value_of(action: Action) -> Option<StorageFact<Text>> {
    match action {
        JetStreamAction::KvPut { bucket, key } | JetStreamAction::KvGet { bucket, key } => Some(
            StorageFact::Kv { bucket, key },
        ),
        JetStreamAction::ObjectPut { bucket, object }
        | JetStreamAction::ObjectGet { bucket, object } => Some(
            StorageFact::Object { bucket, name: object },
        ),
        JetStreamAction::PublishJsonLines { stream, subject } => Some(
            StorageFact::StreamSubject { stream, subject },
        ),
        JetStreamAction::MaterializedPut { target }
        | JetStreamAction::MaterializedGet { target } => Some(StorageFact::of_target(target)),
        _ => None,
    }
}

/// A path can be written exactly where it shows a value that can change, and then both
/// writing and reading it are about that very value.
pub proof fn law_writes_are_about_the_shown_value(path: JetStreamPath<Text>)
    requires
        path.valid(),
    ensures
        planned(FileIntent::Write, path) is Ok <==> StorageFact::of(path) is Some,
        planned(FileIntent::Write, path) matches Ok(writing) ==> value_of(writing)
            == StorageFact::of(path) && (planned(FileIntent::Read, path) matches Ok(reading)
            && value_of(reading) == StorageFact::of(path)),
{
}

} // verus!
