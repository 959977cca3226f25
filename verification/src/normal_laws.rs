//! The mount path of a text that the grammar accepts is the normal form of the text.

use vstd::prelude::*;

use crate::affected::{mounted, storage_path, Place};
use crate::errors::EventFsError;
use crate::file_names::subject_file_name;
use crate::mount_paths::{bad_mount_component, mount_components, normalized, pieces, Components};
use crate::numbers::decimal;
use crate::path::{
    agents_path, components_of, events_path, kv_path, metadata_path, objects_path,
    path_of_components, semantic_path, stream_of_event_file, streams_path, tasks_path, AgentArea,
    JetStreamPath, MetadataFile, SemanticArea,
};
use crate::path_laws::{
    law_parsed_paths_are_valid, lemma_components_hold_no_slash, lemma_decimal_chars,
    lemma_json_suffixes, lemma_pieces_of_rest, lemma_revision_tail, lemma_single_tail,
    lemma_stem_and_suffix, lemma_subject_file_is_component, lemma_valid_path_is_mounted,
};
use crate::text::{
    join, lemma_split_around, lemma_split_without, lemma_without_empty_all,
    lemma_without_empty_append, lemma_without_empty_none, split, trim_end, trim_start, Text,
};

verus! {

/// Slashes at the front of a text add nothing to its pieces.
proof fn lemma_pieces_trimmed_at_the_front(text: Text)
    ensures
        pieces(trim_start(text, '/')) == pieces(text),
    decreases text.len(),
{
    if text.len() > 0 && text[0] == '/' {
        let rest = text.drop_first();
        let none = Seq::<char>::empty();
        lemma_pieces_trimmed_at_the_front(rest);
        assert(text =~= none.push('/') + rest);
        lemma_split_around(none, rest, '/');
        lemma_split_without(none, '/');
        lemma_without_empty_append(seq![none], split(rest, '/'));
        lemma_without_empty_none();
        assert(pieces(text) =~= pieces(rest));
    }
}

/// Slashes at the end of a text add nothing to its pieces.
proof fn lemma_pieces_trimmed_at_the_end(text: Text)
    ensures
        pieces(trim_end(text, '/')) == pieces(text),
    decreases text.len(),
{
    if text.len() > 0 && text.last() == '/' {
        let front = text.drop_last();
        let none = Seq::<char>::empty();
        lemma_pieces_trimmed_at_the_end(front);
        assert(text =~= front.push('/') + none);
        lemma_split_around(front, none, '/');
        lemma_split_without(none, '/');
        lemma_without_empty_append(split(front, '/'), seq![none]);
        lemma_without_empty_none();
        assert(pieces(text) =~= pieces(front));
    }
}

/// A character of a piece is a character of the text.
proof fn lemma_piece_chars(text: Text, ch: char, i: int)
    requires
        0 <= i < split(text, '/').len(),
        split(text, '/')[i].contains(ch),
    ensures
        text.contains(ch),
    decreases text.len(),
{
    if text.len() > 0 {
        let front = text.drop_last();
        let before = split(front, '/');
        let piece = split(text, '/')[i];
        let k = choose|k: int| 0 <= k < piece.len() && piece[k] == ch;
        if text.last() != '/' && i == before.len() - 1 && k == before.last().len() {
            assert(text[text.len() - 1] == ch);
        } else {
            assert(before[i][k] == ch);
            lemma_piece_chars(front, ch, i);
            let at = choose|at: int| 0 <= at < front.len() && front[at] == ch;
            assert(text[at] == ch);
        }
    }
}

/// Trimming adds no character.
proof fn lemma_trimmed_chars(text: Text, ch: char)
    ensures
        trim_start(text, '/').contains(ch) ==> text.contains(ch),
        trim_end(text, '/').contains(ch) ==> text.contains(ch),
    decreases text.len(),
{
    if text.len() > 0 {
        let rest = text.drop_first();
        let front = text.drop_last();
        lemma_trimmed_chars(rest, ch);
        lemma_trimmed_chars(front, ch);
        if rest.contains(ch) {
            let k = choose|k: int| 0 <= k < rest.len() && rest[k] == ch;
            assert(text[k + 1] == ch);
        }
        if front.contains(ch) {
            let k = choose|k: int| 0 <= k < front.len() && front[k] == ch;
            assert(text[k] == ch);
        }
    }
}

/// The components of a text that is accepted are those of its normal form.
pub proof fn law_components_are_the_normal_form(text: Text)
    ensures
        components_of(text) matches Ok(components) ==> normalized(text) == Ok::<
            Components,
            EventFsError<Text>,
        >(components) && mount_components(components),
{
    if let Ok(components) = components_of(text) {
        let front = trim_start(text, '/');
        let trimmed = trim_end(front, '/');
        let parts = split(trimmed, '/');
        lemma_pieces_trimmed_at_the_front(text);
        lemma_pieces_trimmed_at_the_end(front);
        lemma_components_hold_no_slash(text);
        if trimmed.len() == 0 {
            assert(trimmed =~= Seq::<char>::empty());
            lemma_split_without(trimmed, '/');
            lemma_without_empty_none();
        } else {
            lemma_without_empty_all(parts);
            assert forall|i: int| 0 <= i < parts.len() implies !bad_mount_component(
                #[trigger] parts[i],
            ) by {
                if parts[i].contains('\0') {
                    lemma_piece_chars(trimmed, '\0', i);
                    lemma_trimmed_chars(front, '\0');
                    lemma_trimmed_chars(text, '\0');
                }
            }
        }
    }
}

/// Whether the last component of a path is printed anew: its number or its subject may
/// have been written in another way.
pub open spec fn printed_anew(path: JetStreamPath<Text>) -> bool {
    path is KvRevision || path is StreamMessage || path is StreamSubject
}

/// Whether a mount path is made of the given components, but for a last one that is
/// printed anew.
pub open spec fn keeps(path: JetStreamPath<Text>, components: Components) -> bool {
    mounted(path) matches Ok(found) && if printed_anew(path) {
        components.len() > 0 && found.len() == components.len() && found.drop_last()
            == components.drop_last()
    } else {
        found == components
    }
}

/// The path of fixed components and of a tail that was joined from components.
proof fn lemma_tail_of_components(c: Components, from: int)
    requires
        mount_components(c),
        0 <= from < c.len(),
    ensures
        storage_path(Place { fixed: c.take(from), tail: Some(join(c.skip(from), '/')) }) == Ok::<
            Components,
            EventFsError<Text>,
        >(c),
{
    lemma_pieces_of_rest(c, from);
    assert(c.take(from) + c.skip(from) =~= c);
    let tail = join(c.skip(from), '/');
    if tail.len() == 0 {
        assert(tail =~= Seq::<char>::empty());
        lemma_split_without(tail, '/');
        assert(c.skip(from)[0] == c[from]);
    }
}

/// The path of fixed components and one component below them.
proof fn lemma_tail_of_one_component(c: Components)
    requires
        mount_components(c),
        c.len() > 0,
    ensures
        storage_path(Place { fixed: c.drop_last(), tail: Some(c.last()) }) == Ok::<
            Components,
            EventFsError<Text>,
        >(c),
{
    lemma_tail_of_components(c, c.len() - 1);
    assert(c.take(c.len() - 1) =~= c.drop_last());
    assert(c.skip(c.len() - 1) =~= seq![c.last()]);
}

/// What mount paths keep of the components that begin with the name of a root.
spec fn root_keeps(
    read: Result<JetStreamPath<Text>, EventFsError<Text>>,
    c: Components,
) -> bool {
    read matches Ok(path) ==> (path.valid() ==> keeps(path, c))
}

#[verifier::spinoff_prover]
proof fn lemma_history_keeps(c: Components)
    requires
        mount_components(c),
        c.len() > 2,
        c[0] == "kv"@,
        c[2] == ".history"@,
    ensures
        root_keeps(kv_path(c), c),
{
    let fixed = seq!["kv"@, c[1], ".history"@];
    assert(c.take(3) =~= fixed);
    if let Ok(path) = kv_path(c) {
        if path.valid() {
            lemma_valid_path_is_mounted(path);
            match path {
                JetStreamPath::KvHistoryRoot { bucket } => {
                    assert(c =~= fixed);
                },
                JetStreamPath::KvHistoryKey { bucket, key } => {
                    lemma_tail_of_components(c, 3);
                },
                JetStreamPath::KvRevision { bucket, key, revision } => {
                    let rest = c.skip(3);
                    let front = c.drop_last();
                    let digits = decimal(revision as nat);
                    assert(rest.drop_last() =~= front.skip(3));
                    lemma_pieces_of_rest(front, 3);
                    lemma_decimal_chars(revision as nat);
                    lemma_revision_tail(key, digits);
                    let found = mounted(path)->Ok_0;
                    assert(found =~= fixed + front.skip(3).push("@"@ + digits));
                    assert(found.drop_last() =~= front);
                },
                _ => {},
            }
        }
    }
}

#[verifier::spinoff_prover]
proof fn lemma_kv_keeps(c: Components)
    requires
        mount_components(c),
        c.len() > 0,
        c[0] == "kv"@,
    ensures
        root_keeps(kv_path(c), c),
{
    if c.len() > 2 && c[2] == ".history"@ {
        lemma_history_keeps(c);
    } else if c.len() > 2 {
        lemma_tail_of_components(c, 2);
        assert(c.take(2) =~= seq!["kv"@, c[1]]);
    } else if c.len() == 2 {
        assert(c =~= seq!["kv"@, c[1]]);
    } else {
        assert(c =~= seq!["kv"@]);
    }
}

#[verifier::spinoff_prover]
proof fn lemma_streams_keep(c: Components)
    requires
        mount_components(c),
        c.len() > 0,
        c[0] == "streams"@,
    ensures
        root_keeps(streams_path(c), c),
{
    if let Ok(path) = streams_path(c) {
        if path.valid() {
            lemma_valid_path_is_mounted(path);
            match path {
                JetStreamPath::StreamsRoot => {
                    assert(c =~= seq!["streams"@]);
                },
                JetStreamPath::StreamRoot { stream } => {
                    assert(c =~= seq!["streams"@, stream]);
                },
                JetStreamPath::StreamMessages { stream } => {
                    assert(c =~= seq!["streams"@, stream, "messages"@]);
                },
                JetStreamPath::StreamSubjects { stream } => {
                    assert(c =~= seq!["streams"@, stream, "subjects"@]);
                },
                JetStreamPath::StreamMessage { stream, sequence } => {
                    let name = decimal(sequence as nat) + ".json"@;
                    assert(c.drop_last() =~= seq!["streams"@, stream, "messages"@]);
                    lemma_front(c);
                    lemma_decimal_chars(sequence as nat);
                    lemma_json_suffixes();
                    lemma_stem_and_suffix(decimal(sequence as nat), ".json"@);
                    lemma_single_tail(c.drop_last(), name);
                    assert(c.drop_last().push(name).drop_last() =~= c.drop_last());
                },
                JetStreamPath::StreamSubject { stream, subject } => {
                    let name = subject_file_name(subject.0);
                    assert(c.drop_last() =~= seq!["streams"@, stream, "subjects"@]);
                    lemma_front(c);
                    lemma_subject_file_is_component(subject.0);
                    lemma_single_tail(c.drop_last(), name);
                    assert(c.drop_last().push(name).drop_last() =~= c.drop_last());
                },
                _ => {},
            }
        }
    }
}

proof fn lemma_front(c: Components)
    requires
        mount_components(c),
        c.len() > 0,
    ensures
        mount_components(c.drop_last()),
{
    let front = c.drop_last();
    assert forall|i: int| 0 <= i < front.len() implies !bad_mount_component(#[trigger] front[i]) by {
        assert(front[i] == c[i]);
    }
}

#[verifier::spinoff_prover]
proof fn lemma_objects_keep(c: Components)
    requires
        mount_components(c),
        c.len() > 0,
        c[0] == "objects"@,
    ensures
        root_keeps(objects_path(c), c),
{
    if c.len() > 2 {
        lemma_tail_of_components(c, 2);
        assert(c.take(2) =~= seq!["objects"@, c[1]]);
    } else if c.len() == 2 {
        assert(c =~= seq!["objects"@, c[1]]);
    } else {
        assert(c =~= seq!["objects"@]);
    }
}

#[verifier::spinoff_prover]
proof fn lemma_events_keep(c: Components)
    requires
        mount_components(c),
        c.len() > 0,
        c[0] == "events"@,
    ensures
        root_keeps(events_path(c), c),
{
    if c.len() == 1 {
        assert(c =~= seq!["events"@]);
    } else if c.len() == 2 {
        lemma_tail_of_one_component(c);
        assert(c.drop_last() =~= seq!["events"@]);
        if let Ok(stream) = stream_of_event_file(c[1]) {
            assert(stream + ".jsonl"@ =~= c[1]);
        }
    }
}

#[verifier::spinoff_prover]
proof fn lemma_tasks_keep(c: Components)
    requires
        mount_components(c),
        c.len() > 0,
        c[0] == "tasks"@,
    ensures
        root_keeps(tasks_path(c), c),
{
    if c.len() == 1 {
        assert(c =~= seq!["tasks"@]);
    } else if c.len() == 2 {
        assert(c =~= seq!["tasks"@, c[1]]);
    } else if c.len() == 3 {
        lemma_tail_of_one_component(c);
        assert(c.drop_last() =~= seq!["tasks"@, c[1]]);
    }
}

#[verifier::spinoff_prover]
proof fn lemma_agents_keep(c: Components)
    requires
        mount_components(c),
        c.len() > 0,
        c[0] == "agents"@,
    ensures
        root_keeps(agents_path(c), c),
{
    if c.len() == 1 {
        assert(c =~= seq!["agents"@]);
    } else if c.len() == 2 {
        assert(c =~= seq!["agents"@, c[1]]);
    } else if let Some(area) = AgentArea::named(c[2]) {
        assert(area.name() == c[2]);
        if c.len() == 3 {
            assert(c =~= seq!["agents"@, c[1], c[2]]);
        } else {
            lemma_tail_of_components(c, 3);
            assert(c.take(3) =~= seq!["agents"@, c[1], c[2]]);
        }
    }
}

#[verifier::spinoff_prover]
proof fn lemma_semantic_keeps(c: Components)
    requires
        mount_components(c),
        c.len() > 0,
        c[0] == "semantic"@,
    ensures
        root_keeps(semantic_path(c), c),
{
    if c.len() == 1 {
        assert(c =~= seq!["semantic"@]);
    } else if let Some(area) = SemanticArea::named(c[1]) {
        assert(area.name() == c[1]);
        if c.len() == 2 {
            assert(c =~= seq!["semantic"@, c[1]]);
        } else {
            lemma_tail_of_components(c, 2);
            assert(c.take(2) =~= seq!["semantic"@, c[1]]);
        }
    }
}

#[verifier::spinoff_prover]
proof fn lemma_metadata_keeps(c: Components)
    requires
        mount_components(c),
        c.len() > 0,
        c[0] == ".eventfs"@,
    ensures
        root_keeps(metadata_path(c), c),
{
    if c.len() == 1 {
        assert(c =~= seq![".eventfs"@]);
    } else if c.len() == 2 {
        if let Some(file) = MetadataFile::named(c[1]) {
            assert(file.name() == c[1]);
            assert(c =~= seq![".eventfs"@, c[1]]);
        }
    }
}

#[verifier::spinoff_prover]
proof fn lemma_roots_keep(c: Components)
    requires
        mount_components(c),
    ensures
        root_keeps(path_of_components(c), c),
{
    if c.len() == 0 {
        assert(c =~= Components::empty());
    } else if c[0] == "kv"@ {
        lemma_kv_keeps(c);
    } else if c[0] == "streams"@ {
        lemma_streams_keep(c);
    } else if c[0] == "objects"@ {
        lemma_objects_keep(c);
    } else if c[0] == "events"@ {
        lemma_events_keep(c);
    } else if c[0] == "tasks"@ {
        lemma_tasks_keep(c);
    } else if c[0] == "agents"@ {
        lemma_agents_keep(c);
    } else if c[0] == "semantic"@ {
        lemma_semantic_keeps(c);
    } else if c[0] == ".eventfs"@ {
        lemma_metadata_keeps(c);
    }
}

/// The mount path of what a text stands for is the normal form of the text. Only the
/// last component of a revision, of a message and of a subject is printed anew: its
/// number in plain decimal digits, its subject in the one form that file names have.
pub proof fn law_mount_path_is_the_normal_form(text: Text)
    requires
        JetStreamPath::parsed(text) is Ok,
    ensures
        normalized(text) matches Ok(normal) && keeps(JetStreamPath::parsed(text)->Ok_0, normal),
{
    let path = JetStreamPath::parsed(text)->Ok_0;
    law_parsed_paths_are_valid(text);
    law_components_are_the_normal_form(text);
    lemma_roots_keep(components_of(text)->Ok_0);
}

} // verus!
