//! What open files come to: a file is opened with what it holds, holds what was written to
//! it, and gives that back.

use vstd::prelude::*;

use crate::affected::StorageFact;
use crate::commit_laws::left_behind;
use crate::documents::MountStatus;
use crate::entries::EntryKind;
use crate::errno;
use crate::errors::EventFsError;
use crate::files::content_at;
use crate::handles::{
    created_attr, fitted, handle_committed, opened, read_through, session_joined,
    session_opened, truncate_staged, write_staged, Handle, OpenFile, RuntimeOpenOptions,
    Session, StagedCreate,
};
use crate::inquiry::{Pause, Step, Stop, StorageRequest, Talk};
use crate::keys::law_commit_seeds_differ;
use crate::kind_laws::{lemma_mapped, mapped};
use crate::kinds::{attr_of, creation, HandleMode, RuntimeAttr};
use crate::mount_paths::{mount_text, Components};
use crate::overlay::{Fact, Snapshot};
use crate::path::JetStreamPath;
use crate::path_cache::Row;
use crate::path_laws::law_parsed_paths_are_valid;
use crate::read_laws::reading;
use crate::store::{lemma_end, lemma_goes_on, lemma_turn, run, Store};
use crate::text::Text;
use crate::upkeep::gate_passed;
use crate::versions::{Time, VersionStamp};

verus! {

// ---------------------------------------------------------------------------
// Opening
// ---------------------------------------------------------------------------

/// Opening the file at a path.
pub open spec fn opening(
    facts: Seq<Fact>,
    status: MountStatus,
    mounted_at: Time,
    path: Components,
    options: RuntimeOpenOptions,
    seed: Text,
) -> spec_fn(Talk) -> Step<OpenFile> {
    |talk: Talk| opened(talk, facts, status, mounted_at, path, options, seed)
}

/// A file that nothing was written to yet.
pub open spec fn untouched(
    path: Components,
    buffer: Seq<u8>,
    writable: bool,
    seed: Text,
    mode: HandleMode,
    base_offset: usize,
) -> OpenFile {
    Handle {
        path,
        buffer,
        dirty: false,
        committed: false,
        writable,
        commit_seed: seed,
        mode,
        base_offset,
        staged_create: None,
    }
}

/// Opening a file only to read it asks for nothing, and nothing can be written to it.
pub proof fn law_reading_files_are_opened_at_once(
    facts: Seq<Fact>,
    status: MountStatus,
    mounted_at: Time,
    path: Components,
    options: RuntimeOpenOptions,
    seed: Text,
    store: Store,
    talk: Talk,
    turns: nat,
)
    requires
        !options.writable,
    ensures
        run(opening(facts, status, mounted_at, path, options, seed), store, talk, turns) == (
            Ok::<OpenFile, Stop>(
                untouched(path, Seq::empty(), false, seed, HandleMode::WholeValue, 0),
            ),
            store,
            talk,
        ),
{
    lemma_end(opening(facts, status, mounted_at, path, options, seed), store, talk, turns);
}

/// Opening a file that is written as a whole, to change it, reads it: the file begins with
/// exactly what a read of its path gives, and cannot be opened where it cannot be read.
pub proof fn law_changed_files_begin_with_what_they_hold(
    facts: Seq<Fact>,
    status: MountStatus,
    mounted_at: Time,
    parsed: JetStreamPath<Text>,
    fact: StorageFact<Text>,
    path: Components,
    seed: Text,
    store: Store,
    talk: Talk,
    turns: nat,
)
    requires
        turns >= 1,
        talk.listening(),
        JetStreamPath::parsed(mount_text(path)) == Ok::<JetStreamPath<Text>, EventFsError<Text>>(
            parsed,
        ),
        StorageFact::of(parsed) == Some(fact),
        !(fact is StreamSubject),
        store.gate && store.grants(StorageRequest::WriteGate),
    ensures
        ({
            let options = RuntimeOpenOptions { writable: true, truncate: false, create: false };
            let (result, after, _) = run(
                opening(facts, status, mounted_at, path, options, seed),
                store,
                talk,
                turns,
            );
            let later = talk.told(store.reply(StorageRequest::WriteGate)).heard();
            let (read, behind, _) = run(
                reading(facts, status, mounted_at, path),
                store,
                later,
                (turns - 1) as nat,
            );
            &&& later.listening()
            &&& after == behind
            &&& result == match read {
                Ok(snapshot) => Ok::<OpenFile, Stop>(
                    untouched(path, snapshot.bytes, true, seed, HandleMode::WholeValue, 0),
                ),
                Err(stop) => Err(stop),
            }
        }),
{
    law_parsed_paths_are_valid(mount_text(path));
    let options = RuntimeOpenOptions { writable: true, truncate: false, create: false };
    let operation = opening(facts, status, mounted_at, path, options, seed);
    let gate = StorageRequest::WriteGate;
    let read = reading(facts, status, mounted_at, path);
    let f = |snapshot: Snapshot|
        untouched(path, snapshot.bytes, true, seed, HandleMode::WholeValue, 0);
    let beginning = |t: Talk| (mapped(read(t).0, f), read(t).1);
    assert forall|t: Talk| #[trigger]
        beginning(t) == {
            let (snapshot, t) = content_at(t, facts, status, mounted_at, path);
            match snapshot {
                Ok(snapshot) => (
                    Ok::<OpenFile, Stop>(
                        untouched(path, snapshot.bytes, true, seed, HandleMode::WholeValue, 0),
                    ),
                    t,
                ),
                Err(stop) => (Err(stop), t),
            }
        } by {
    }
    lemma_turn(operation, talk, gate, beginning, store, turns);
    let later = talk.told(store.reply(gate)).heard();
    lemma_mapped(beginning, read, f, store, later, (turns - 1) as nat);
}

/// Opening a log to append to it reads it: lines go on behind exactly what a read of its
/// path gives, or at the beginning where the log is not there yet. It cannot be cut.
pub proof fn law_opened_logs_go_on_behind_what_they_hold(
    facts: Seq<Fact>,
    status: MountStatus,
    mounted_at: Time,
    parsed: JetStreamPath<Text>,
    fact: StorageFact<Text>,
    path: Components,
    truncate: bool,
    seed: Text,
    store: Store,
    talk: Talk,
    turns: nat,
)
    requires
        turns >= 1,
        talk.listening(),
        JetStreamPath::parsed(mount_text(path)) == Ok::<JetStreamPath<Text>, EventFsError<Text>>(
            parsed,
        ),
        StorageFact::of(parsed) == Some(fact),
        fact is StreamSubject,
        store.gate && store.grants(StorageRequest::WriteGate),
    ensures
        ({
            let options = RuntimeOpenOptions { writable: true, truncate, create: false };
            let (result, after, _) = run(
                opening(facts, status, mounted_at, path, options, seed),
                store,
                talk,
                turns,
            );
            let later = talk.told(store.reply(StorageRequest::WriteGate)).heard();
            let (read, behind, _) = run(
                reading(facts, status, mounted_at, path),
                store,
                later,
                (turns - 1) as nat,
            );
            &&& later.listening()
            &&& truncate ==> result == Err::<OpenFile, Stop>(Pause::Fail(errno::EROFS)) && after
                == store
            &&& !truncate ==> after == behind && result == match read {
                Ok(snapshot) => Ok::<OpenFile, Stop>(
                    untouched(
                        path,
                        Seq::empty(),
                        true,
                        seed,
                        HandleMode::JsonLines,
                        snapshot.bytes.len() as usize,
                    ),
                ),
                Err(Pause::Fail(number)) if number == errno::ENOENT => Ok(
                    untouched(path, Seq::empty(), true, seed, HandleMode::JsonLines, 0),
                ),
                Err(stop) => Err(stop),
            }
        }),
{
    law_parsed_paths_are_valid(mount_text(path));
    let options = RuntimeOpenOptions { writable: true, truncate, create: false };
    let operation = opening(facts, status, mounted_at, path, options, seed);
    let gate = StorageRequest::WriteGate;
    let later = talk.told(store.reply(gate)).heard();
    let left = (turns - 1) as nat;
    if truncate {
        let refused = |t: Talk| (Err::<OpenFile, Stop>(Pause::Fail(errno::EROFS)), t);
        lemma_turn(operation, talk, gate, refused, store, turns);
        lemma_end(refused, store, later, left);
    } else {
        let read = reading(facts, status, mounted_at, path);
        let f = |read: Result<Snapshot, Stop>|
            match read {
                Ok(snapshot) => Ok::<OpenFile, Stop>(
                    untouched(
                        path,
                        Seq::empty(),
                        true,
                        seed,
                        HandleMode::JsonLines,
                        snapshot.bytes.len() as usize,
                    ),
                ),
                Err(Pause::Fail(number)) if number == errno::ENOENT => Ok(
                    untouched(path, Seq::empty(), true, seed, HandleMode::JsonLines, 0),
                ),
                Err(stop) => Err(stop),
            };
        let beginning = |t: Talk| (f(read(t).0), read(t).1);
        lemma_turn(operation, talk, gate, beginning, store, turns);
        lemma_answered(beginning, read, f, store, later, left);
    }
}

/// An operation that answers by what another comes to comes to the same.
pub proof fn lemma_answered<T, U>(
    operation: spec_fn(Talk) -> Step<U>,
    other: spec_fn(Talk) -> Step<T>,
    f: spec_fn(Result<T, Stop>) -> Result<U, Stop>,
    store: Store,
    talk: Talk,
    turns: nat,
)
    requires
        forall|t: Talk| #[trigger] operation(t) == (f(other(t).0), other(t).1),
        forall|result: Result<T, Stop>| #[trigger]
            f(result) matches Err(Pause::Ask(request)) ==> result == Err::<T, Stop>(
                Pause::Ask(request),
            ),
        forall|result: Result<T, Stop>|
            #![trigger f(result)]
            result matches Err(Pause::Ask(request)) ==> f(result) == Err::<U, Stop>(
                Pause::Ask(request),
            ),
    ensures
        ({
            let (result, after, later) = run(other, store, talk, turns);
            run(operation, store, talk, turns) == (f(result), after, later)
        }),
    decreases turns,
{
    assert(operation(talk) == (f(other(talk).0), other(talk).1));
    if turns > 0 {
        if let Err(Pause::Ask(request)) = other(talk).0 {
            lemma_answered(
                operation,
                other,
                f,
                store.after(request),
                talk.told(store.reply(request)),
                (turns - 1) as nat,
            );
        }
    }
}

/// Opening a file that is written as a whole, to write it anew, begins with nothing, and
/// that counts as written: closing it leaves it empty.
pub proof fn law_cut_files_begin_with_nothing(
    facts: Seq<Fact>,
    status: MountStatus,
    mounted_at: Time,
    parsed: JetStreamPath<Text>,
    fact: StorageFact<Text>,
    path: Components,
    seed: Text,
    store: Store,
    talk: Talk,
    turns: nat,
)
    requires
        turns >= 1,
        talk.listening(),
        JetStreamPath::parsed(mount_text(path)) == Ok::<JetStreamPath<Text>, EventFsError<Text>>(
            parsed,
        ),
        StorageFact::of(parsed) == Some(fact),
        !(fact is StreamSubject),
        store.gate && store.grants(StorageRequest::WriteGate),
    ensures
        ({
            let options = RuntimeOpenOptions { writable: true, truncate: true, create: false };
            let (result, after, _) = run(
                opening(facts, status, mounted_at, path, options, seed),
                store,
                talk,
                turns,
            );
            &&& after == store
            &&& result == Ok::<OpenFile, Stop>(
                Handle {
                    dirty: true,
                    ..untouched(path, Seq::empty(), true, seed, HandleMode::WholeValue, 0)
                },
            )
        }),
{
    law_parsed_paths_are_valid(mount_text(path));
    let options = RuntimeOpenOptions { writable: true, truncate: true, create: false };
    let operation = opening(facts, status, mounted_at, path, options, seed);
    let gate = StorageRequest::WriteGate;
    let file: OpenFile = Handle {
        dirty: true,
        ..untouched(path, Seq::empty(), true, seed, HandleMode::WholeValue, 0)
    };
    let finish = |t: Talk| (Ok::<OpenFile, Stop>(file), t);
    lemma_turn(operation, talk, gate, finish, store, turns);
    lemma_end(finish, store, talk.told(store.reply(gate)).heard(), (turns - 1) as nat);
}

/// Making a new file stages what a new file holds, dated by now, and that counts as
/// written. It stores nothing yet. Where the file cannot be made, it is not opened.
pub proof fn law_new_files_are_staged(
    facts: Seq<Fact>,
    status: MountStatus,
    mounted_at: Time,
    parsed: JetStreamPath<Text>,
    fact: StorageFact<Text>,
    path: Components,
    truncate: bool,
    seed: Text,
    talk: Talk,
)
    requires
        JetStreamPath::parsed(mount_text(path)) == Ok::<JetStreamPath<Text>, EventFsError<Text>>(
            parsed,
        ),
        StorageFact::of(parsed) == Some(fact),
        !(fact is StreamSubject),
        gate_passed(talk).0 is Ok,
    ensures
        ({
            let options = RuntimeOpenOptions { writable: true, truncate, create: true };
            let (result, after) = opened(talk, facts, status, mounted_at, path, options, seed);
            let (payload, asked) = creation(gate_passed(talk).1, facts, path);
            match payload {
                Err(stop) => result == Err::<OpenFile, Stop>(stop) && after == asked,
                Ok(payload) => {
                    &&& after == asked.time(StorageRequest::CurrentTime).1
                    &&& match asked.time(StorageRequest::CurrentTime).0 {
                        Err(stop) => result == Err::<OpenFile, Stop>(stop),
                        Ok(now) => result matches Ok(file) && {
                            &&& file.dirty && !file.committed && file.writable
                            &&& file.path == path && file.commit_seed == seed
                            &&& file.mode == HandleMode::WholeValue
                            &&& file.buffer.len() == 0 && file.base_offset == 0
                            &&& file.staged_create == Some(
                                StagedCreate {
                                    default_payload: payload,
                                    version: VersionStamp::of(now),
                                },
                            )
                        },
                    }
                },
            }
        }),
{
    law_parsed_paths_are_valid(mount_text(path));
}

/// A file that was opened has the next number, which no other gets; the others stay as
/// they are, and so do all where it could not be opened.
pub proof fn law_opened_files_are_numbered(session: Session, file: Result<OpenFile, Stop>, fh: u64)
    requires
        session.next_fh < u64::MAX,
    ensures
        ({
            let after = session_opened(session, file);
            &&& match file {
                Ok(file) => {
                    &&& after.files == session.files.insert(session.next_fh, file)
                    &&& after.next_fh == session.next_fh + 1
                    &&& after.next_commit == session.seeded().next_commit
                },
                Err(Pause::Fail(_)) => {
                    &&& after.files == session.files
                    &&& after.next_fh == session.next_fh + 1
                    &&& after.next_commit == session.next_commit
                },
                Err(Pause::Ask(_)) => after == session,
            }
            &&& after.mount_name == session.mount_name && after.instance == session.instance
        }),
        ({
            let after = session_joined(session, fh, file);
            &&& match file {
                Ok(file) => {
                    &&& after.files == session.files.insert(fh, file)
                    &&& after.next_commit == session.seeded().next_commit
                },
                Err(_) => after == session,
            }
            &&& after.next_fh == session.next_fh
            &&& after.mount_name == session.mount_name && after.instance == session.instance
        }),
{
}

// ---------------------------------------------------------------------------
// Writing
// ---------------------------------------------------------------------------

/// Where data that is written to an open file comes to stand in its buffer: in a log behind
/// what the log held when it was opened.
pub open spec fn place_of(file: OpenFile, offset: int) -> int {
    if file.mode == HandleMode::JsonLines {
        offset - file.base_offset
    } else {
        offset
    }
}

/// What was written to an open file is in it: the data stands where it was written, what
/// was there before stands everywhere else, and zeros stand between. The file is to be
/// committed then. What a log held before cannot be written over.
pub proof fn law_written_data_is_in_the_open_file(
    session: Session,
    talk: Talk,
    fh: u64,
    offset: i64,
    data: Seq<u8>,
)
    requires
        session.files.dom().contains(fh),
        session.files[fh].writable,
        0 <= offset <= usize::MAX,
        offset + data.len() <= usize::MAX,
        gate_passed(talk).0 is Ok,
    ensures
        ({
            let file = session.files[fh];
            let ((result, _), after) = write_staged(session, talk, fh, offset, data);
            let start = place_of(file, offset as int);
            let now = after.files[fh];
            &&& after.files.dom().contains(fh)
            &&& after.files.remove(fh) == session.files.remove(fh)
            &&& now.path == file.path && now.mode == file.mode && now.writable
            &&& now.base_offset == file.base_offset && now.staged_create == file.staged_create
            &&& now.commit_seed == if file.committed {
                session.seed()
            } else {
                file.commit_seed
            }
            &&& start < 0 ==> result == Err::<usize, Stop>(Pause::Fail(errno::EINVAL)) && now.buffer
                == file.buffer
            &&& start >= 0 ==> {
                &&& result == Ok::<usize, Stop>(data.len() as usize)
                &&& now.dirty && !now.committed
                &&& now.buffer.len() >= start + data.len()
                &&& now.buffer.len() == file.buffer.len() || now.buffer.len() == start + data.len()
                &&& now.buffer.len() >= file.buffer.len()
                &&& now.buffer.subrange(start, start + data.len()) == data
                &&& forall|i: int|
                    0 <= i < file.buffer.len() && !(start <= i < start + data.len())
                        ==> #[trigger] now.buffer[i] == file.buffer[i]
                &&& forall|i: int|
                    file.buffer.len() <= i < start ==> #[trigger] now.buffer[i] == 0
            }
        }),
{
    let file = session.files[fh];
    let after = write_staged(session, talk, fh, offset, data).1;
    let start = place_of(file, offset as int);
    assert(after.files.remove(fh) =~= session.files.remove(fh));
    if start >= 0 {
        assert(after.files[fh].buffer.subrange(start, start + data.len()) =~= data);
    }
}

/// What is written to no open file, or to one that was opened to be read, is refused with
/// `EBADF`; a place before the file with `EINVAL`. No buffer changes.
pub proof fn law_misplaced_writes_are_refused(
    session: Session,
    talk: Talk,
    fh: u64,
    offset: i64,
    data: Seq<u8>,
    other: u64,
)
    requires
        offset < 0 || !session.files.dom().contains(fh) || (gate_passed(talk).0 is Ok
            && !session.files[fh].writable),
        session.files.dom().contains(other),
    ensures
        ({
            let ((result, _), after) = write_staged(session, talk, fh, offset, data);
            &&& result == Err::<usize, Stop>(
                Pause::Fail(
                    if offset < 0 {
                        errno::EINVAL
                    } else {
                        errno::EBADF
                    },
                ),
            )
            &&& after.files.dom() == session.files.dom()
            &&& after.files[other].buffer == session.files[other].buffer
            &&& after.files[other].dirty == session.files[other].dirty
        }),
{
    let after = write_staged(session, talk, fh, offset, data).1;
    assert(after.files.dom() =~= session.files.dom());
}

/// An open file that was cut is empty, and is to be committed then; other files stay.
pub proof fn law_cut_open_files_are_empty(session: Session, talk: Talk, fh: u64)
    requires
        session.files.dom().contains(fh),
        session.files[fh].writable && session.files[fh].mode == HandleMode::WholeValue,
        gate_passed(talk).0 is Ok,
    ensures
        ({
            let file = session.files[fh];
            let ((result, later), after) = truncate_staged(session, talk, fh);
            let now = after.files[fh];
            &&& result is Ok && later == gate_passed(talk).1
            &&& after.files.dom().contains(fh)
            &&& after.files.remove(fh) == session.files.remove(fh)
            &&& now.buffer.len() == 0 && now.dirty && !now.committed && now.writable
            &&& now.path == file.path && now.mode == file.mode
            &&& now.staged_create == file.staged_create
        }),
{
    let after = truncate_staged(session, talk, fh).1;
    assert(after.files.remove(fh) =~= session.files.remove(fh));
}

// ---------------------------------------------------------------------------
// Reading back
// ---------------------------------------------------------------------------

/// Reading a path through an open file.
pub open spec fn reading_through(
    session: Session,
    facts: Seq<Fact>,
    status: MountStatus,
    mounted_at: Time,
    fh: u64,
    path: Components,
) -> spec_fn(Talk) -> Step<Seq<u8>> {
    |talk: Talk| read_through(session, talk, facts, status, mounted_at, fh, path)
}

/// A file that is written as a whole and was written to gives back what is in it, without
/// a question.
pub proof fn law_written_files_are_read_back(
    session: Session,
    facts: Seq<Fact>,
    status: MountStatus,
    mounted_at: Time,
    fh: u64,
    store: Store,
    talk: Talk,
    turns: nat,
)
    requires
        session.files.dom().contains(fh),
        session.files[fh].dirty && session.files[fh].mode == HandleMode::WholeValue,
        JetStreamPath::parsed(mount_text(session.files[fh].path)) is Ok,
    ensures
        run(
            reading_through(
                session,
                facts,
                status,
                mounted_at,
                fh,
                session.files[fh].path,
            ),
            store,
            talk,
            turns,
        ) == (Ok::<Seq<u8>, Stop>(session.files[fh].buffer), store, talk),
{
    lemma_end(
        reading_through(session, facts, status, mounted_at, fh, session.files[fh].path),
        store,
        talk,
        turns,
    );
}

/// A file that nothing was written to, or no open file of that path, gives what a read of
/// the path gives.
pub proof fn law_unwritten_files_are_read_from_the_tree(
    session: Session,
    facts: Seq<Fact>,
    status: MountStatus,
    mounted_at: Time,
    fh: u64,
    path: Components,
    store: Store,
    talk: Talk,
    turns: nat,
)
    requires
        JetStreamPath::parsed(mount_text(path)) is Ok,
        session.files.dom().contains(fh) && session.files[fh].path == path
            ==> !session.files[fh].dirty,
    ensures
        ({
            let (result, after, later) = run(
                reading_through(session, facts, status, mounted_at, fh, path),
                store,
                talk,
                turns,
            );
            let (read, behind, told) = run(
                reading(facts, status, mounted_at, path),
                store,
                talk,
                turns,
            );
            &&& after == behind && later == told
            &&& result == match read {
                Ok(snapshot) => Ok::<Seq<u8>, Stop>(snapshot.bytes),
                Err(stop) => Err(stop),
            }
        }),
{
    let operation = reading_through(session, facts, status, mounted_at, fh, path);
    let read = reading(facts, status, mounted_at, path);
    let f = |snapshot: Snapshot| snapshot.bytes;
    let plain = |t: Talk| (mapped(read(t).0, f), read(t).1);
    lemma_goes_on(operation, talk, plain, talk, store, turns);
    lemma_mapped(plain, read, f, store, talk, turns);
}

/// A log that lines were written to gives what a read of its path gives, as far as the log
/// was when it was opened, and then the lines.
pub proof fn law_written_lines_are_read_back(
    session: Session,
    facts: Seq<Fact>,
    status: MountStatus,
    mounted_at: Time,
    fh: u64,
    store: Store,
    talk: Talk,
    turns: nat,
)
    requires
        session.files.dom().contains(fh),
        session.files[fh].dirty && session.files[fh].mode == HandleMode::JsonLines,
        JetStreamPath::parsed(mount_text(session.files[fh].path)) is Ok,
    ensures
        ({
            let file = session.files[fh];
            let (result, after, _) = run(
                reading_through(session, facts, status, mounted_at, fh, file.path),
                store,
                talk,
                turns,
            );
            let (read, behind, _) = run(
                reading(facts, status, mounted_at, file.path),
                store,
                talk,
                turns,
            );
            &&& after == behind
            &&& match read {
                Ok(snapshot) => result matches Ok(bytes) && {
                    &&& bytes.len() == file.base_offset + file.buffer.len()
                    &&& bytes.skip(file.base_offset as int) == file.buffer
                    &&& forall|i: int|
                        0 <= i < file.base_offset && i < snapshot.bytes.len() ==> #[trigger] bytes[i]
                            == snapshot.bytes[i]
                },
                Err(Pause::Fail(number)) if number == errno::ENOENT => result matches Ok(bytes) && {
                    &&& bytes.len() == file.base_offset + file.buffer.len()
                    &&& bytes.skip(file.base_offset as int) == file.buffer
                },
                Err(stop) => result == Err::<Seq<u8>, Stop>(stop),
            }
        }),
{
    let file = session.files[fh];
    let operation = reading_through(session, facts, status, mounted_at, fh, file.path);
    let read = reading(facts, status, mounted_at, file.path);
    let f = |read: Result<Snapshot, Stop>|
        match read {
            Ok(snapshot) => Ok::<Seq<u8>, Stop>(
                fitted(snapshot.bytes, file.base_offset as nat) + file.buffer,
            ),
            Err(Pause::Fail(number)) if number == errno::ENOENT => Ok(
                fitted(Seq::empty(), file.base_offset as nat) + file.buffer,
            ),
            Err(stop) => Err(stop),
        };
    let plain = |t: Talk| (f(read(t).0), read(t).1);
    lemma_goes_on(operation, talk, plain, talk, store, turns);
    lemma_answered(plain, read, f, store, talk, turns);
    let result = run(operation, store, talk, turns).0;
    if let Ok(bytes) = result {
        assert(bytes.skip(file.base_offset as int) =~= file.buffer);
    }
}

/// A file that was just made shows what was written to it so far, dated by when it was
/// made; every other file has the attributes of its path. A file that is not open gives
/// `EBADF`, and one of another path `EINVAL`.
pub proof fn law_made_files_show_what_was_written(
    session: Session,
    talk: Talk,
    facts: Seq<Fact>,
    status: MountStatus,
    mounted_at: Time,
    stale: Set<Components>,
    rows: Seq<Row>,
    fh: u64,
    path: Components,
)
    ensures
        ({
            let ((result, later), fresh) = created_attr(
                session,
                talk,
                facts,
                status,
                mounted_at,
                stale,
                rows,
                fh,
                path,
            );
            if !session.files.dom().contains(fh) {
                result == Err::<RuntimeAttr, Stop>(Pause::Fail(errno::EBADF)) && later == talk
                    && !fresh
            } else if session.files[fh].path != path {
                result == Err::<RuntimeAttr, Stop>(Pause::Fail(errno::EINVAL)) && later == talk
                    && !fresh
            } else if session.files[fh].staged_create is Some && session.files[fh].mode
                == HandleMode::WholeValue {
                &&& later == talk && !fresh
                &&& result matches Ok(attr) && attr.kind == EntryKind::File && attr.size
                    == session.files[fh].buffer.len() as u64 && attr.version
                    == session.files[fh].staged_create.unwrap().version
            } else {
                ((result, later), fresh) == attr_of(
                    talk,
                    facts,
                    status,
                    mounted_at,
                    stale,
                    rows,
                    path,
                )
            }
        }),
{
}

// ---------------------------------------------------------------------------
// Seeds
// ---------------------------------------------------------------------------

/// No two commits get the same seed: the seed that a file is opened with is not given out
/// again, and a file that was committed and is written to again gets a new one.
pub proof fn law_seeds_are_given_out_once(
    session: Session,
    talk: Talk,
    file: OpenFile,
    fh: u64,
    offset: i64,
    data: Seq<u8>,
)
    requires
        session.next_commit < u64::MAX,
    ensures
        session.seeded().next_commit == session.next_commit + 1,
        session.seeded().seed() != session.seed(),
        session_opened(session, Ok(file)).seed() != session.seed(),
        session_joined(session, fh, Ok(file)).seed() != session.seed(),
        offset >= 0 && session.files.dom().contains(fh) && session.files[fh].committed
            && session.files[fh].writable && gate_passed(talk).0 is Ok ==> {
            let after = write_staged(session, talk, fh, offset, data).1;
            after.files[fh].commit_seed == session.seed() && after.seed() != session.seed()
        },
{
    law_commit_seeds_differ(
        session.mount_name,
        session.instance,
        session.next_commit,
        (session.next_commit + 1) as u64,
    );
}

/// A file that was synced holds what was committed: a file that is written as a whole keeps
/// it, and a log goes on behind it.
pub proof fn law_synced_files_hold_what_was_committed(
    session: Session,
    talk: Talk,
    fh: u64,
    bytes: Seq<u8>,
    mounted_at: Time,
)
    requires
        session.files.dom().contains(fh),
        session.files[fh].writable && session.files[fh].dirty && !session.files[fh].committed,
        left_behind(session.files[fh], bytes),
        handle_committed(session, talk, fh, mounted_at).0.0 is Ok,
    ensures
        ({
            let file = session.files[fh];
            let now = handle_committed(session, talk, fh, mounted_at).1.files[fh];
            &&& now.path == file.path && now.mode == file.mode && now.writable
            &&& now.commit_seed == file.commit_seed
            &&& file.mode == HandleMode::WholeValue ==> now.buffer == bytes
            &&& file.mode == HandleMode::JsonLines ==> now.buffer.len() == 0 && (
            file.base_offset + bytes.len() <= usize::MAX ==> now.base_offset == file.base_offset
                + bytes.len())
        }),
{
}

} // verus!
