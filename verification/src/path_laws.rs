//! The grammar and the mount paths agree: what a path stands for is found again under
//! its own mount path.

use vstd::prelude::*;

use crate::affected::{mounted, place_of, storage_path, Place};
use crate::errors::EventFsError;
use crate::file_names::{
    law_subject_file_name_round_trip, lemma_subject_file_name_chars, plain_char, subject_file_name,
};
use crate::mount_paths::{
    bad_mount_component, lemma_mount_text_pieces, mount_components, mount_text, Components,
};
use crate::numbers::{decimal, decimal_digit, law_number_round_trip, lemma_decimal_value};
use crate::path::{
    agents_path, bad_component, bad_name, components_of, events_path, key_char, kv_path,
    metadata_path, name_problem, objects_path, path_of_components, reserved_key, revision_marker,
    semantic_path, streams_path, tasks_path, token_char, token_problem, valid_key, AgentArea,
    JetStreamPath, MetadataFile, SemanticArea, StreamSubject,
};
use crate::text::{
    join, lemma_join_ends, lemma_join_split, lemma_split_around, lemma_split_join,
    lemma_split_pieces, lemma_split_without, split, strip_prefix, strip_suffix, trim_end,
    trim_start, Text,
};

verus! {

/// The components of the text of a mount path are those of the path.
pub proof fn lemma_components_of_mount_text(path: Components)
    requires
        mount_components(path),
    ensures
        components_of(mount_text(path)) == Ok::<Components, EventFsError<Text>>(path),
{
    let text = mount_text(path);
    let joined = join(path, '/');
    lemma_mount_text_pieces(path);
    assert(text.drop_first() =~= joined);
    if path.len() == 0 {
        assert(joined =~= Seq::<char>::empty());
        assert(trim_start(joined, '/') =~= Seq::<char>::empty());
        assert(trim_start(text, '/') == trim_start(joined, '/'));
        assert(path =~= Seq::empty());
    } else {
        let first = path[0];
        let last = path[path.len() - 1];
        assert(!bad_mount_component(first));
        assert(!bad_mount_component(last));
        lemma_join_ends(path, '/');
        assert(first[0] != '/') by {
            if first[0] == '/' {
                assert(first.contains('/'));
            }
        }
        assert(last.last() != '/') by {
            if last.last() == '/' {
                assert(last[last.len() - 1] == '/');
                assert(last.contains('/'));
            }
        }
        assert(trim_start(joined, '/') == joined);
        assert(trim_start(text, '/') == joined);
        assert(trim_end(joined, '/') == joined);
        assert forall|i: int| 0 <= i < path.len() implies !(#[trigger] path[i]).contains('/') by {
            assert(!bad_mount_component(path[i]));
        }
        lemma_split_join(path, '/');
        assert forall|i: int| 0 <= i < path.len() implies !bad_component(#[trigger] path[i]) by {
            assert(!bad_mount_component(path[i]));
        }
    }
}

/// The components of a path hold no slash.
pub proof fn lemma_components_hold_no_slash(path: Text)
    ensures
        components_of(path) matches Ok(components) ==> forall|i: int|
            0 <= i < components.len() ==> !(#[trigger] components[i]).contains('/'),
{
    lemma_split_pieces(trim_end(trim_start(path, '/'), '/'), '/');
}

/// Components of a path that are joined into a key or a name are the pieces of it.
pub proof fn lemma_pieces_of_rest(components: Components, from: int)
    requires
        0 <= from < components.len(),
        forall|i: int| 0 <= i < components.len() ==> !(#[trigger] components[i]).contains('/'),
    ensures
        split(join(components.skip(from), '/'), '/') == components.skip(from),
{
    let rest = components.skip(from);
    assert forall|i: int| 0 <= i < rest.len() implies !(#[trigger] rest[i]).contains('/') by {
        assert(rest[i] == components[i + from]);
    }
    lemma_split_join(rest, '/');
}

/// Every path that the grammar accepts holds only names that it accepts.
pub proof fn law_parsed_paths_are_valid(text: Text)
    ensures
        JetStreamPath::parsed(text) matches Ok(path) ==> path.valid(),
{
    lemma_components_hold_no_slash(text);
    if components_of(text) is Ok {
        let c = components_of(text)->Ok_0;
        if c.len() > 2 {
            lemma_pieces_of_rest(c, 2);
        }
        if c.len() > 3 {
            lemma_pieces_of_rest(c, 3);
            let rest = c.skip(3);
            if rest.len() > 1 {
                let front = rest.drop_last();
                assert forall|i: int| 0 <= i < front.len() implies !(
                #[trigger] front[i]).contains('/') by {
                    assert(front[i] == c[i + 3]);
                }
                lemma_split_join(front, '/');
            }
        }
        if c.len() > 0 && c[0] == "kv"@ {
            lemma_parsed_kv_is_valid(c);
        }
    }
}

/// No path that the grammar accepts names a key of the mount's own bookkeeping.
pub proof fn law_parsed_keys_are_not_reserved(text: Text)
    ensures
        JetStreamPath::parsed(text) matches Ok(path) ==> match path {
            JetStreamPath::KvKey { key, .. } => !reserved_key(key),
            JetStreamPath::KvHistoryKey { key, .. } => !reserved_key(key),
            JetStreamPath::KvRevision { key, .. } => !reserved_key(key),
            JetStreamPath::TaskNamespace { namespace } => !reserved_key(namespace),
            JetStreamPath::Task { namespace, .. } => !reserved_key(namespace),
            JetStreamPath::AgentRoot { agent } => !reserved_key(agent),
            JetStreamPath::AgentMailbox { agent, .. } => !reserved_key(agent),
            JetStreamPath::AgentDirectory { agent, .. } => !reserved_key(agent),
            JetStreamPath::AgentRecord { agent, .. } => !reserved_key(agent),
            _ => true,
        },
{
    law_parsed_paths_are_valid(text);
    match JetStreamPath::parsed(text) {
        Ok(JetStreamPath::KvKey { key, .. }) => {
            lemma_name_pieces(key);
        },
        Ok(JetStreamPath::KvHistoryKey { key, .. }) => {
            lemma_name_pieces(key);
        },
        Ok(JetStreamPath::KvRevision { key, .. }) => {
            lemma_name_pieces(key);
        },
        _ => {},
    }
}

/// What components that begin with `kv` stand for holds only accepted names.
proof fn lemma_parsed_kv_is_valid(c: Components)
    requires
        c.len() > 0,
        forall|i: int| 0 <= i < c.len() ==> !(#[trigger] c[i]).contains('/'),
    ensures
        kv_path(c) matches Ok(path) ==> path.valid(),
{
    if c.len() > 2 {
        lemma_pieces_of_rest(c, 2);
        if c.len() > 3 {
            lemma_pieces_of_rest(c, 3);
            let rest = c.skip(3);
            if rest.len() > 1 {
                let front = rest.drop_last();
                assert forall|i: int| 0 <= i < front.len() implies !(
                #[trigger] front[i]).contains('/') by {
                    assert(front[i] == c[i + 3]);
                }
                lemma_split_join(front, '/');
            }
        }
    }
}

// ---------------------------------------------------------------------------
// Names as components
// ---------------------------------------------------------------------------

/// A text of more than one plain character that begins with no dot, or of more than
/// two, is a component.
proof fn lemma_word(word: Text)
    requires
        word.len() > 2 || (word.len() == 2 && word[0] != '.'),
        forall|i: int| 0 <= i < word.len() ==> plain_char(#[trigger] word[i]),
    ensures
        !bad_mount_component(word),
{
    reveal_strlit(".");
    reveal_strlit("..");
    assert(".."@[0] == '.');
    if word.contains('/') {
        let k = choose|k: int| 0 <= k < word.len() && word[k] == '/';
        assert(plain_char(word[k]));
    }
    if word.contains('\0') {
        let k = choose|k: int| 0 <= k < word.len() && word[k] == '\0';
        assert(plain_char(word[k]));
    }
}

/// No two of the names of the root directories are the same.
pub proof fn lemma_root_names_differ()
    ensures
        "kv"@.len() == 2,
        "streams"@.len() == 7 && "streams"@[0] == 's',
        "objects"@.len() == 7 && "objects"@[0] == 'o',
        "events"@.len() == 6 && "events"@[0] == 'e',
        "tasks"@.len() == 5,
        "agents"@.len() == 6 && "agents"@[0] == 'a',
        "semantic"@.len() == 8 && "semantic"@[0] == 's',
        ".eventfs"@.len() == 8 && ".eventfs"@[0] == '.',
{
    reveal_strlit("kv");
    reveal_strlit("streams");
    reveal_strlit("objects");
    reveal_strlit("events");
    reveal_strlit("tasks");
    reveal_strlit("agents");
    reveal_strlit("semantic");
    reveal_strlit(".eventfs");
}

/// The names of the root directories are components.
pub proof fn lemma_root_components()
    ensures
        !bad_mount_component("kv"@),
        !bad_mount_component("streams"@),
        !bad_mount_component("objects"@),
        !bad_mount_component("events"@),
        !bad_mount_component("tasks"@),
        !bad_mount_component("agents"@),
        !bad_mount_component("semantic"@),
        !bad_mount_component(".eventfs"@),
{
    reveal_strlit("kv");
    lemma_word("kv"@);
    reveal_strlit("streams");
    lemma_word("streams"@);
    reveal_strlit("objects");
    lemma_word("objects"@);
    reveal_strlit("events");
    lemma_word("events"@);
    reveal_strlit("tasks");
    lemma_word("tasks"@);
    reveal_strlit("agents");
    lemma_word("agents"@);
    reveal_strlit("semantic");
    lemma_word("semantic"@);
    reveal_strlit(".eventfs");
    lemma_word(".eventfs"@);
}

/// The names of the fixed directories below the root directories are components.
pub proof fn lemma_fixed_components()
    ensures
        !bad_mount_component(".history"@),
        !bad_mount_component("messages"@),
        !bad_mount_component("subjects"@),
        ".history"@[0] == '.',
        "messages"@[0] == 'm',
        "subjects"@[0] == 's',
{
    reveal_strlit(".history");
    lemma_word(".history"@);
    reveal_strlit("messages");
    lemma_word("messages"@);
    reveal_strlit("subjects");
    lemma_word("subjects"@);
}

/// Its name is a component, and names it.
pub proof fn lemma_agent_area_name(area: AgentArea)
    ensures
        !bad_mount_component(area.name()),
        AgentArea::named(area.name()) == Some(area),
{
    area.law_name_round_trip();
    match area {
        AgentArea::Inbox => {
            reveal_strlit("inbox");
            lemma_word("inbox"@);
        },
        AgentArea::Outbox => {
            reveal_strlit("outbox");
            lemma_word("outbox"@);
        },
        AgentArea::Tasks => {
            reveal_strlit("tasks");
            lemma_word("tasks"@);
        },
        AgentArea::Memory => {
            reveal_strlit("memory");
            lemma_word("memory"@);
        },
    }
}

/// Its name is a component, and names it.
pub proof fn lemma_semantic_area_name(area: SemanticArea)
    ensures
        !bad_mount_component(area.name()),
        SemanticArea::named(area.name()) == Some(area),
{
    area.law_name_round_trip();
    match area {
        SemanticArea::Summaries => {
            reveal_strlit("summaries");
            lemma_word("summaries"@);
        },
        SemanticArea::Tags => {
            reveal_strlit("tags");
            lemma_word("tags"@);
        },
        SemanticArea::Relations => {
            reveal_strlit("relations");
            lemma_word("relations"@);
        },
        SemanticArea::Timelines => {
            reveal_strlit("timelines");
            lemma_word("timelines"@);
        },
        SemanticArea::Embeddings => {
            reveal_strlit("embeddings");
            lemma_word("embeddings"@);
        },
    }
}

/// Its name is a component, and names it.
proof fn lemma_metadata_file_name(file: MetadataFile)
    ensures
        !bad_mount_component(file.name()),
        MetadataFile::named(file.name()) == Some(file),
{
    file.law_name_round_trip();
    match file {
        MetadataFile::Status => {
            reveal_strlit("status.json");
            lemma_word("status.json"@);
        },
        MetadataFile::Cache => {
            reveal_strlit("cache.json");
            lemma_word("cache.json"@);
        },
        MetadataFile::Queue => {
            reveal_strlit("queue.json");
            lemma_word("queue.json"@);
        },
        MetadataFile::Capabilities => {
            reveal_strlit("capabilities.json");
            lemma_word("capabilities.json"@);
        },
        MetadataFile::Errors => {
            reveal_strlit("errors.jsonl");
            lemma_word("errors.jsonl"@);
        },
    }
}

/// The name of an agent's area begins with no dot.
pub proof fn lemma_agent_area_begins(area: AgentArea)
    ensures
        area.name().len() > 0,
        area.name()[0] != '.',
{
    reveal_strlit("inbox");
    reveal_strlit("outbox");
    reveal_strlit("tasks");
    reveal_strlit("memory");
}

/// The name of a semantic area begins with no dot.
pub proof fn lemma_semantic_area_begins(area: SemanticArea)
    ensures
        area.name().len() > 0,
        area.name()[0] != '.',
{
    reveal_strlit("summaries");
    reveal_strlit("tags");
    reveal_strlit("relations");
    reveal_strlit("timelines");
    reveal_strlit("embeddings");
}

/// A token is a component.
pub proof fn lemma_token_is_component(token: Text, label: Text)
    requires
        token_problem(token, label) is None,
    ensures
        !bad_mount_component(token),
        !token.contains('.'),
        forall|i: int| 0 <= i < token.len() ==> token_char(#[trigger] token[i]),
{
    reveal_strlit(".");
    reveal_strlit("..");
    assert(token_char(token[0]));
    if token.contains('/') {
        let k = choose|k: int| 0 <= k < token.len() && token[k] == '/';
        assert(token_char(token[k]));
    }
    if token.contains('\0') {
        let k = choose|k: int| 0 <= k < token.len() && token[k] == '\0';
        assert(token_char(token[k]));
    }
    if token.contains('.') {
        let k = choose|k: int| 0 <= k < token.len() && token[k] == '.';
        assert(token_char(token[k]));
    }
}

/// A name is a component.
pub proof fn lemma_name_is_component(name: Text)
    requires
        !bad_name(name),
        !name.contains('/'),
    ensures
        !bad_mount_component(name),
{
    reveal_strlit(".");
    reveal_strlit("..");
}

/// The pieces of an object's name, and so of a key, are components, and joined they
/// are the name.
pub proof fn lemma_name_pieces(name: Text)
    requires
        name_problem(split(name, '/')) is None,
    ensures
        name.len() > 0,
        split(name, '/').len() >= 1,
        mount_components(split(name, '/')),
        split(name, '/')[0].len() > 0,
        split(name, '/')[0][0] != '.',
        join(split(name, '/'), '/') == name,
{
    let parts = split(name, '/');
    lemma_split_pieces(name, '/');
    lemma_join_split(name, '/');
    assert(!bad_name(parts[0]));
    assert(!bad_name(parts[parts.len() - 1]));
    lemma_join_ends(parts, '/');
    assert forall|i: int| 0 <= i < parts.len() implies !bad_mount_component(#[trigger] parts[i]) by {
        assert(!bad_name(parts[i]));
        lemma_name_is_component(parts[i]);
    }
}

/// Components before and after one another are components together.
pub proof fn lemma_components_append(left: Components, right: Components)
    requires
        mount_components(left),
        mount_components(right),
    ensures
        mount_components(left + right),
{
    let both = left + right;
    assert forall|i: int| 0 <= i < both.len() implies !bad_mount_component(#[trigger] both[i]) by {
        if i < left.len() {
            assert(both[i] == left[i]);
        } else {
            assert(both[i] == right[i - left.len()]);
        }
    }
}

/// The path of a place whose tail is one component.
pub proof fn lemma_single_tail(fixed: Components, tail: Text)
    requires
        mount_components(fixed),
        !bad_mount_component(tail),
    ensures
        storage_path(Place { fixed, tail: Some(tail) }) == Ok::<Components, EventFsError<Text>>(
            fixed.push(tail),
        ),
{
    lemma_split_without(tail, '/');
    lemma_components_append(fixed, seq![tail]);
    assert(fixed + seq![tail] =~= fixed.push(tail));
}

/// The path of a place whose tail is an object's name or a key.
pub proof fn lemma_name_tail(fixed: Components, tail: Text)
    requires
        mount_components(fixed),
        name_problem(split(tail, '/')) is None,
    ensures
        storage_path(Place { fixed, tail: Some(tail) }) == Ok::<Components, EventFsError<Text>>(
            fixed + split(tail, '/'),
        ),
{
    lemma_name_pieces(tail);
    lemma_components_append(fixed, split(tail, '/'));
}

/// A text of plain characters with a suffix of plain characters is one component.
pub proof fn lemma_stem_and_suffix(stem: Text, suffix: Text)
    requires
        stem.len() > 0,
        !stem.contains('/'),
        !stem.contains('\0'),
        !suffix.contains('/'),
        !suffix.contains('\0'),
        suffix.len() > 2,
    ensures
        !bad_mount_component(stem + suffix),
        strip_suffix(stem + suffix, suffix) == Some(stem),
{
    reveal_strlit(".");
    reveal_strlit("..");
    let name = stem + suffix;
    if name.contains('/') {
        let k = choose|k: int| 0 <= k < name.len() && name[k] == '/';
        if k < stem.len() {
            assert(stem[k] == '/');
        } else {
            assert(suffix[k - stem.len()] == '/');
        }
    }
    if name.contains('\0') {
        let k = choose|k: int| 0 <= k < name.len() && name[k] == '\0';
        if k < stem.len() {
            assert(stem[k] == '\0');
        } else {
            assert(suffix[k - stem.len()] == '\0');
        }
    }
    assert(name.subrange(name.len() - suffix.len(), name.len() as int) =~= suffix);
    assert(name.take(name.len() - suffix.len()) =~= stem);
}

/// The digits of a number hold no separator.
pub proof fn lemma_decimal_chars(value: nat)
    ensures
        decimal(value).len() > 0,
        !decimal(value).contains('/'),
        !decimal(value).contains('\0'),
        !decimal(value).contains('@'),
    decreases value,
{
    lemma_decimal_value(value);
    let text = decimal(value);
    if text.contains('/') {
        let k = choose|k: int| 0 <= k < text.len() && text[k] == '/';
        assert(decimal_digit(text[k]));
    }
    if text.contains('\0') {
        let k = choose|k: int| 0 <= k < text.len() && text[k] == '\0';
        assert(decimal_digit(text[k]));
    }
    if text.contains('@') {
        let k = choose|k: int| 0 <= k < text.len() && text[k] == '@';
        assert(decimal_digit(text[k]));
    }
}

// ---------------------------------------------------------------------------
// A path stands under its own mount path
// ---------------------------------------------------------------------------

/// A revision's tail ends in its marker.
pub proof fn lemma_revision_tail(key: Text, digits: Text)
    requires
        !digits.contains('/'),
        !digits.contains('\0'),
    ensures
        split(key + "/@"@ + digits, '/') == split(key, '/').push("@"@ + digits),
        (key + "/@"@ + digits).len() > 0,
        !bad_mount_component("@"@ + digits),
        strip_prefix("@"@ + digits, "@"@) == Some(digits),
{
    let marker = "@"@ + digits;
    let tail = key + "/@"@ + digits;
    reveal_strlit("@");
    reveal_strlit("/@");
    reveal_strlit(".");
    reveal_strlit("..");
    assert(tail =~= key.push('/') + marker);
    lemma_split_around(key, marker, '/');
    assert(!marker.contains('/')) by {
        if marker.contains('/') {
            let k = choose|k: int| 0 <= k < marker.len() && marker[k] == '/';
            assert(digits[k - 1] == '/');
        }
    }
    assert(!marker.contains('\0')) by {
        if marker.contains('\0') {
            let k = choose|k: int| 0 <= k < marker.len() && marker[k] == '\0';
            assert(digits[k - 1] == '\0');
        }
    }
    lemma_split_without(marker, '/');
    assert(split(tail, '/') =~= split(key, '/').push(marker));
    assert(marker.subrange(0, 1) =~= "@"@);
    assert(marker.skip(1) =~= digits);
    assert(marker[0] == '@');
    assert("."@[0] == '.');
    assert(".."@[0] == '.');
}

/// The last piece of a key marks no revision.
proof fn lemma_key_marks_no_revision(key: Text)
    requires
        valid_key(key),
    ensures
        revision_marker(split(key, '/').last()) == Ok::<Option<u64>, EventFsError<Text>>(None),
{
    let parts = split(key, '/');
    let last = parts.last();
    lemma_name_pieces(key);
    reveal_strlit("@");
    assert(!bad_mount_component(parts[parts.len() - 1]));
    assert(last.len() > 0);
    if "@"@.is_prefix_of(last) {
        assert(last[0] == "@"@[0]);
        if parts.len() == 1 {
            assert(key == last);
            assert(key_char(key[0]));
        } else {
            let front = join(parts.drop_last(), '/');
            assert(key == front.push('/') + last);
            assert(key[front.len() as int + 1] == '@');
            assert(key_char(key[front.len() as int + 1]));
        }
    }
}

/// Components that begin with the name of a root directory are read by its rules.
pub proof fn lemma_dispatch(c: Components)
    requires
        c.len() > 0,
    ensures
        c[0] == "kv"@ ==> path_of_components(c) == kv_path(c),
        c[0] == "streams"@ ==> path_of_components(c) == streams_path(c),
        c[0] == "objects"@ ==> path_of_components(c) == objects_path(c),
        c[0] == "events"@ ==> path_of_components(c) == events_path(c),
        c[0] == "tasks"@ ==> path_of_components(c) == tasks_path(c),
        c[0] == "agents"@ ==> path_of_components(c) == agents_path(c),
        c[0] == "semantic"@ ==> path_of_components(c) == semantic_path(c),
        c[0] == ".eventfs"@ ==> path_of_components(c) == metadata_path(c),
{
    lemma_root_names_differ();
}

pub proof fn lemma_one(first: Text)
    requires
        !bad_mount_component(first),
    ensures
        mount_components(seq![first]),
{
}

pub proof fn lemma_two(first: Text, second: Text)
    requires
        !bad_mount_component(first),
        !bad_mount_component(second),
    ensures
        mount_components(seq![first, second]),
{
}

pub proof fn lemma_three(first: Text, second: Text, third: Text)
    requires
        !bad_mount_component(first),
        !bad_mount_component(second),
        !bad_mount_component(third),
    ensures
        mount_components(seq![first, second, third]),
{
}

/// What a path's mount path must come to.
spec fn comes_to(path: JetStreamPath<Text>, components: Components) -> bool {
    &&& mounted(path) == Ok::<Components, EventFsError<Text>>(components)
    &&& mount_components(components)
    &&& path_of_components(components) == Ok::<JetStreamPath<Text>, EventFsError<Text>>(path)
}

/// A component added to components.
proof fn lemma_push(fixed: Components, last: Text)
    requires
        mount_components(fixed),
        !bad_mount_component(last),
    ensures
        mount_components(fixed.push(last)),
{
    lemma_components_append(fixed, seq![last]);
    assert(fixed + seq![last] =~= fixed.push(last));
}

/// The suffixes of the mount's files hold no separator.
pub proof fn lemma_json_suffixes()
    ensures
        !".json"@.contains('/') && !".json"@.contains('\0') && ".json"@.len() > 2,
        !".jsonl"@.contains('/') && !".jsonl"@.contains('\0') && ".jsonl"@.len() > 2,
{
    reveal_strlit(".json");
    reveal_strlit(".jsonl");
}

/// The file name of a subject is one component.
pub proof fn lemma_subject_file_is_component(subject: Text)
    requires
        subject.len() > 0,
    ensures
        !bad_mount_component(subject_file_name(subject)),
{
    lemma_subject_file_name_chars(subject);
    lemma_word(subject_file_name(subject));
}

/// The root directories and the metadata files.
proof fn lemma_fixed_path(path: JetStreamPath<Text>)
    requires
        path is Root || path is KvRoot || path is StreamsRoot || path is ObjectsRoot
            || path is EventsRoot || path is TasksRoot || path is AgentsRoot || path is SemanticRoot
            || path is MetadataRoot || path is MetadataFile,
    ensures
        comes_to(path, place_of(path).fixed),
{
    lemma_root_components();
    if path is MetadataFile {
        let file = path->MetadataFile_0;
        lemma_metadata_file_name(file);
        lemma_two(".eventfs"@, file.name());
    }
    let c = place_of(path).fixed;
    if c.len() > 0 {
        lemma_dispatch(c);
    }
}

proof fn lemma_kv_bucket(bucket: Text)
    requires
        (JetStreamPath::KvBucket { bucket }).valid(),
    ensures
        comes_to(
            JetStreamPath::KvBucket { bucket },
            seq!["kv"@, bucket],
        ),
{
    lemma_root_components();
    lemma_token_is_component(bucket, "bucket"@);
    lemma_two("kv"@, bucket);
    lemma_dispatch(seq!["kv"@, bucket]);
}

proof fn lemma_kv_key(bucket: Text, key: Text)
    requires
        (JetStreamPath::KvKey { bucket, key }).valid(),
    ensures
        comes_to(
            JetStreamPath::KvKey { bucket, key },
            seq!["kv"@, bucket] + split(key, '/'),
        ),
{
    lemma_root_components();
    lemma_token_is_component(bucket, "bucket"@);
    lemma_fixed_components();
    lemma_two("kv"@, bucket);
    lemma_name_tail(seq!["kv"@, bucket], key);
    lemma_name_pieces(key);
    lemma_components_append(seq!["kv"@, bucket], split(key, '/'));
    let c = seq!["kv"@, bucket] + split(key, '/');
    assert(c.skip(2) =~= split(key, '/'));
    assert(c[2] == split(key, '/')[0]);
    assert(c[1] == bucket);
    lemma_dispatch(seq!["kv"@, bucket] + split(key, '/'));
}

proof fn lemma_kv_history_root(bucket: Text)
    requires
        (JetStreamPath::KvHistoryRoot { bucket }).valid(),
    ensures
        comes_to(
            JetStreamPath::KvHistoryRoot { bucket },
            seq!["kv"@, bucket, ".history"@],
        ),
{
    lemma_root_components();
    lemma_token_is_component(bucket, "bucket"@);
    lemma_fixed_components();
    lemma_three("kv"@, bucket, ".history"@);
    let c = seq!["kv"@, bucket, ".history"@];
    assert(c.skip(3) =~= Seq::empty());
    lemma_dispatch(seq!["kv"@, bucket, ".history"@]);
}

proof fn lemma_kv_history_key(bucket: Text, key: Text)
    requires
        (JetStreamPath::KvHistoryKey { bucket, key }).valid(),
    ensures
        comes_to(
            JetStreamPath::KvHistoryKey { bucket, key },
            seq!["kv"@, bucket, ".history"@] + split(key, '/'),
        ),
{
    lemma_root_components();
    lemma_token_is_component(bucket, "bucket"@);
    lemma_fixed_components();
    let fixed = seq!["kv"@, bucket, ".history"@];
    lemma_three("kv"@, bucket, ".history"@);
    lemma_name_tail(fixed, key);
    lemma_name_pieces(key);
    lemma_key_marks_no_revision(key);
    lemma_components_append(fixed, split(key, '/'));
    let c = fixed + split(key, '/');
    assert(c.skip(3) =~= split(key, '/'));
    assert(c[1] == bucket);
    assert(c[2] == ".history"@);
    lemma_dispatch(seq!["kv"@, bucket, ".history"@] + split(key, '/'));
}

proof fn lemma_kv_revision(bucket: Text, key: Text, revision: u64)
    requires
        (JetStreamPath::KvRevision { bucket, key, revision }).valid(),
    ensures
        comes_to(
            JetStreamPath::KvRevision { bucket, key, revision },
            seq!["kv"@, bucket, ".history"@] + split(key, '/').push("@"@ + decimal(revision as nat)),
        ),
{
    lemma_root_components();
    lemma_token_is_component(bucket, "bucket"@);
    lemma_fixed_components();
    let fixed = seq!["kv"@, bucket, ".history"@];
    let digits = decimal(revision as nat);
    let marker = "@"@ + digits;
    lemma_three("kv"@, bucket, ".history"@);
    lemma_decimal_chars(revision as nat);
    law_number_round_trip(revision);
    lemma_revision_tail(key, digits);
    lemma_name_pieces(key);
    let rest = split(key, '/').push(marker);
    lemma_one(marker);
    assert(split(key, '/') + seq![marker] =~= rest);
    lemma_components_append(split(key, '/'), seq![marker]);
    lemma_components_append(fixed, rest);
    let c = fixed + rest;
    assert(c.skip(3) =~= rest);
    assert(rest.drop_last() =~= split(key, '/'));
    assert(c[1] == bucket);
    assert(c[2] == ".history"@);
    lemma_dispatch(seq!["kv"@, bucket, ".history"@] + split(key, '/').push("@"@ + decimal(revision as nat)));
}

proof fn lemma_stream_root(stream: Text)
    requires
        (JetStreamPath::StreamRoot { stream }).valid(),
    ensures
        comes_to(
            JetStreamPath::StreamRoot { stream },
            seq!["streams"@, stream],
        ),
{
    lemma_root_components();
    lemma_token_is_component(stream, "stream"@);
    lemma_two("streams"@, stream);
    lemma_dispatch(seq!["streams"@, stream]);
}

proof fn lemma_stream_messages(stream: Text)
    requires
        (JetStreamPath::StreamMessages { stream }).valid(),
    ensures
        comes_to(
            JetStreamPath::StreamMessages { stream },
            seq!["streams"@, stream, "messages"@],
        ),
{
    lemma_root_components();
    lemma_token_is_component(stream, "stream"@);
    lemma_fixed_components();
    lemma_three("streams"@, stream, "messages"@);
    lemma_dispatch(seq!["streams"@, stream, "messages"@]);
}

proof fn lemma_stream_subjects(stream: Text)
    requires
        (JetStreamPath::StreamSubjects { stream }).valid(),
    ensures
        comes_to(
            JetStreamPath::StreamSubjects { stream },
            seq!["streams"@, stream, "subjects"@],
        ),
{
    lemma_root_components();
    lemma_token_is_component(stream, "stream"@);
    lemma_fixed_components();
    lemma_three("streams"@, stream, "subjects"@);
    lemma_dispatch(seq!["streams"@, stream, "subjects"@]);
}

proof fn lemma_stream_message(stream: Text, sequence: u64)
    requires
        (JetStreamPath::StreamMessage { stream, sequence }).valid(),
    ensures
        comes_to(
            JetStreamPath::StreamMessage { stream, sequence },
            seq!["streams"@, stream, "messages"@].push(decimal(sequence as nat) + ".json"@),
        ),
{
    lemma_root_components();
    lemma_token_is_component(stream, "stream"@);
    lemma_fixed_components();
    lemma_three("streams"@, stream, "messages"@);
    lemma_decimal_chars(sequence as nat);
    law_number_round_trip(sequence);
    lemma_json_suffixes();
    lemma_stem_and_suffix(decimal(sequence as nat), ".json"@);
    lemma_single_tail(seq!["streams"@, stream, "messages"@], decimal(sequence as nat) + ".json"@);
    lemma_one(decimal(sequence as nat) + ".json"@);
    lemma_push(seq!["streams"@, stream, "messages"@], decimal(sequence as nat) + ".json"@);
    lemma_dispatch(seq!["streams"@, stream, "messages"@].push(decimal(sequence as nat) + ".json"@));
}

proof fn lemma_stream_subject(stream: Text, subject: StreamSubject<Text>)
    requires
        (JetStreamPath::StreamSubject { stream, subject }).valid(),
    ensures
        comes_to(
            JetStreamPath::StreamSubject { stream, subject },
            seq!["streams"@, stream, "subjects"@].push(subject_file_name(subject.0)),
        ),
{
    lemma_root_components();
    lemma_token_is_component(stream, "stream"@);
    lemma_fixed_components();
    lemma_three("streams"@, stream, "subjects"@);
    lemma_subject_file_is_component(subject.0);
    law_subject_file_name_round_trip(subject.0);
    lemma_single_tail(seq!["streams"@, stream, "subjects"@], subject_file_name(subject.0));
    lemma_push(seq!["streams"@, stream, "subjects"@], subject_file_name(subject.0));
    lemma_dispatch(seq!["streams"@, stream, "subjects"@].push(subject_file_name(subject.0)));
}

proof fn lemma_object_bucket(bucket: Text)
    requires
        (JetStreamPath::ObjectBucket { bucket }).valid(),
    ensures
        comes_to(
            JetStreamPath::ObjectBucket { bucket },
            seq!["objects"@, bucket],
        ),
{
    lemma_root_components();
    lemma_token_is_component(bucket, "bucket"@);
    lemma_two("objects"@, bucket);
    lemma_dispatch(seq!["objects"@, bucket]);
}

proof fn lemma_object(bucket: Text, object: Text)
    requires
        (JetStreamPath::Object { bucket, object }).valid(),
    ensures
        comes_to(
            JetStreamPath::Object { bucket, object },
            seq!["objects"@, bucket] + split(object, '/'),
        ),
{
    lemma_root_components();
    lemma_token_is_component(bucket, "bucket"@);
    lemma_two("objects"@, bucket);
    lemma_name_tail(seq!["objects"@, bucket], object);
    lemma_name_pieces(object);
    lemma_components_append(seq!["objects"@, bucket], split(object, '/'));
    let c = seq!["objects"@, bucket] + split(object, '/');
    assert(c.skip(2) =~= split(object, '/'));
    assert(c[1] == bucket);
    lemma_dispatch(seq!["objects"@, bucket] + split(object, '/'));
}

proof fn lemma_event_log(stream: Text)
    requires
        (JetStreamPath::EventLog { stream }).valid(),
    ensures
        comes_to(
            JetStreamPath::EventLog { stream },
            seq!["events"@].push(stream + ".jsonl"@),
        ),
{
    lemma_root_components();
    lemma_token_is_component(stream, "stream"@);
    lemma_one("events"@);
    lemma_json_suffixes();
    lemma_stem_and_suffix(stream, ".jsonl"@);
    lemma_single_tail(seq!["events"@], stream + ".jsonl"@);
    lemma_push(seq!["events"@], stream + ".jsonl"@);
    lemma_dispatch(seq!["events"@].push(stream + ".jsonl"@));
}

proof fn lemma_task_namespace(namespace: Text)
    requires
        (JetStreamPath::TaskNamespace { namespace }).valid(),
    ensures
        comes_to(
            JetStreamPath::TaskNamespace { namespace },
            seq!["tasks"@, namespace],
        ),
{
    lemma_root_components();
    lemma_token_is_component(namespace, "task namespace"@);
    lemma_two("tasks"@, namespace);
    lemma_dispatch(seq!["tasks"@, namespace]);
}

proof fn lemma_task(namespace: Text, task: Text)
    requires
        (JetStreamPath::Task { namespace, task }).valid(),
    ensures
        comes_to(
            JetStreamPath::Task { namespace, task },
            seq!["tasks"@, namespace].push(task),
        ),
{
    lemma_root_components();
    lemma_token_is_component(namespace, "task namespace"@);
    lemma_two("tasks"@, namespace);
    lemma_name_is_component(task);
    lemma_single_tail(seq!["tasks"@, namespace], task);
    lemma_push(seq!["tasks"@, namespace], task);
    lemma_dispatch(seq!["tasks"@, namespace].push(task));
}

proof fn lemma_agent_root(agent: Text)
    requires
        (JetStreamPath::AgentRoot { agent }).valid(),
    ensures
        comes_to(
            JetStreamPath::AgentRoot { agent },
            seq!["agents"@, agent],
        ),
{
    lemma_root_components();
    lemma_token_is_component(agent, "agent"@);
    lemma_two("agents"@, agent);
    lemma_dispatch(seq!["agents"@, agent]);
}

proof fn lemma_agent_mailbox(agent: Text, area: AgentArea)
    requires
        (JetStreamPath::AgentMailbox { agent, area }).valid(),
    ensures
        comes_to(
            JetStreamPath::AgentMailbox { agent, area },
            seq!["agents"@, agent, area.name()],
        ),
{
    lemma_root_components();
    lemma_token_is_component(agent, "agent"@);
    lemma_agent_area_name(area);
    lemma_three("agents"@, agent, area.name());
    let c = seq!["agents"@, agent, area.name()];
    assert(c.skip(3) =~= Seq::empty());
    lemma_dispatch(seq!["agents"@, agent, area.name()]);
}

proof fn lemma_agent_directory(agent: Text, area: AgentArea)
    requires
        (JetStreamPath::AgentDirectory { agent, area }).valid(),
    ensures
        comes_to(
            JetStreamPath::AgentDirectory { agent, area },
            seq!["agents"@, agent, area.name()],
        ),
{
    lemma_root_components();
    lemma_token_is_component(agent, "agent"@);
    lemma_agent_area_name(area);
    lemma_three("agents"@, agent, area.name());
    let c = seq!["agents"@, agent, area.name()];
    assert(c.skip(3) =~= Seq::empty());
    lemma_dispatch(seq!["agents"@, agent, area.name()]);
}

proof fn lemma_agent_record(agent: Text, area: AgentArea, path: Text)
    requires
        (JetStreamPath::AgentRecord { agent, area, path }).valid(),
    ensures
        comes_to(
            JetStreamPath::AgentRecord { agent, area, path },
            seq!["agents"@, agent, area.name()] + split(path, '/'),
        ),
{
    lemma_root_components();
    lemma_token_is_component(agent, "agent"@);
    lemma_agent_area_name(area);
    let fixed = seq!["agents"@, agent, area.name()];
    lemma_three("agents"@, agent, area.name());
    lemma_name_tail(fixed, path);
    lemma_name_pieces(path);
    lemma_components_append(fixed, split(path, '/'));
    let c = fixed + split(path, '/');
    assert(c.skip(3) =~= split(path, '/'));
    assert(c[1] == agent);
    assert(c[2] == area.name());
    lemma_dispatch(seq!["agents"@, agent, area.name()] + split(path, '/'));
}

proof fn lemma_semantic_area(area: SemanticArea)
    requires
        (JetStreamPath::SemanticArea { area }).valid(),
    ensures
        comes_to(
            JetStreamPath::SemanticArea { area },
            seq!["semantic"@, area.name()],
        ),
{
    lemma_root_components();
    lemma_semantic_area_name(area);
    lemma_two("semantic"@, area.name());
    lemma_dispatch(seq!["semantic"@, area.name()]);
}

proof fn lemma_semantic_record(area: SemanticArea, path: Text)
    requires
        (JetStreamPath::SemanticRecord { area, path }).valid(),
    ensures
        comes_to(
            JetStreamPath::SemanticRecord { area, path },
            seq!["semantic"@, area.name()] + split(path, '/'),
        ),
{
    lemma_root_components();
    lemma_semantic_area_name(area);
    let fixed = seq!["semantic"@, area.name()];
    lemma_two("semantic"@, area.name());
    lemma_name_tail(fixed, path);
    lemma_name_pieces(path);
    lemma_components_append(fixed, split(path, '/'));
    let c = fixed + split(path, '/');
    assert(c.skip(2) =~= split(path, '/'));
    assert(c[1] == area.name());
    lemma_dispatch(seq!["semantic"@, area.name()] + split(path, '/'));
}

/// Every valid path has a mount path, and the text of that mount path stands for the
/// path: the grammar and the mount paths are inverses of each other.
pub proof fn law_mount_path_stands_for_its_path(path: JetStreamPath<Text>)
    requires
        path.valid(),
    ensures
        mounted(path) matches Ok(components) && mount_components(components)
            && JetStreamPath::parsed(mount_text(components)) == Ok::<
            JetStreamPath<Text>,
            EventFsError<Text>,
        >(path),
{
    match path {
        JetStreamPath::KvBucket { bucket } => {
            lemma_kv_bucket(bucket);
        },
        JetStreamPath::KvKey { bucket, key } => {
            lemma_kv_key(bucket, key);
        },
        JetStreamPath::KvHistoryRoot { bucket } => {
            lemma_kv_history_root(bucket);
        },
        JetStreamPath::KvHistoryKey { bucket, key } => {
            lemma_kv_history_key(bucket, key);
        },
        JetStreamPath::KvRevision { bucket, key, revision } => {
            lemma_kv_revision(bucket, key, revision);
        },
        JetStreamPath::StreamRoot { stream } => {
            lemma_stream_root(stream);
        },
        JetStreamPath::StreamMessages { stream } => {
            lemma_stream_messages(stream);
        },
        JetStreamPath::StreamMessage { stream, sequence } => {
            lemma_stream_message(stream, sequence);
        },
        JetStreamPath::StreamSubjects { stream } => {
            lemma_stream_subjects(stream);
        },
        JetStreamPath::StreamSubject { stream, subject } => {
            lemma_stream_subject(stream, subject);
        },
        JetStreamPath::ObjectBucket { bucket } => {
            lemma_object_bucket(bucket);
        },
        JetStreamPath::Object { bucket, object } => {
            lemma_object(bucket, object);
        },
        JetStreamPath::EventLog { stream } => {
            lemma_event_log(stream);
        },
        JetStreamPath::TaskNamespace { namespace } => {
            lemma_task_namespace(namespace);
        },
        JetStreamPath::Task { namespace, task } => {
            lemma_task(namespace, task);
        },
        JetStreamPath::AgentRoot { agent } => {
            lemma_agent_root(agent);
        },
        JetStreamPath::AgentMailbox { agent, area } => {
            lemma_agent_mailbox(agent, area);
        },
        JetStreamPath::AgentDirectory { agent, area } => {
            lemma_agent_directory(agent, area);
        },
        JetStreamPath::AgentRecord { agent, area, path } => {
            lemma_agent_record(agent, area, path);
        },
        JetStreamPath::SemanticArea { area } => {
            lemma_semantic_area(area);
        },
        JetStreamPath::SemanticRecord { area, path } => {
            lemma_semantic_record(area, path);
        },
        _ => {
            lemma_fixed_path(path);
        },
    }
    lemma_components_of_mount_text(mounted(path)->Ok_0);
}

/// Every valid path has a mount path.
pub proof fn lemma_valid_path_is_mounted(path: JetStreamPath<Text>)
    requires
        path.valid(),
    ensures
        mounted(path) is Ok,
{
    law_mount_path_stands_for_its_path(path);
}

/// Reading a path that stands for something and writing down its mount path gives a
/// text that stands for the same thing.
pub proof fn law_parse_round_trip(text: Text)
    requires
        JetStreamPath::parsed(text) is Ok,
    ensures
        ({
            let path = JetStreamPath::parsed(text)->Ok_0;
            mounted(path) matches Ok(components) && JetStreamPath::parsed(mount_text(components))
                == JetStreamPath::parsed(text)
        }),
{
    law_parsed_paths_are_valid(text);
    law_mount_path_stands_for_its_path(JetStreamPath::parsed(text)->Ok_0);
}

} // verus!
