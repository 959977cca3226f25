//! Open files: what is staged in them, and how it is read back before it is committed.

use std::collections::HashMap;

use vstd::prelude::*;

use crate::commit::{commit_mount_path_with_seed, committed};
use crate::documents::MountStatus;
use crate::entries::EntryKind;
use crate::errno;
use crate::files::{content_at, read_bytes, MountView};
use crate::inquiry::{
    option_ref_view, plain_outcome, step_outcome, Inquiry, Pause, Step, Stop, StorageRequest, Talk,
};
use crate::jsonl::{append_bytes, copy_bytes};
use crate::keys::{commit_seed, following_id, next_id, seed_text};
use crate::kinds::{
    attr, attr_of, create_target, creation, mode_of, refreshed, settled, write_mode, HandleMode,
    RuntimeAttr,
};
use crate::mount_paths::{mount_text, Components, MountPath};
use crate::mutations::{
    execute_mknod, execute_rename, file_made, moved, truncate_path, truncated,
};
use crate::overlay::{Fact, Snapshot};
use crate::path::JetStreamPath;
use crate::path_cache::{PathCache, Row};
use crate::stale::PathSet;
use crate::text::{option_view, Text};
use crate::upkeep::{ensure_writes_allowed, gate_passed};
use crate::versions::{Time, VersionStamp};

verus! {

/// What a new file holds as long as nothing is written to it, and since when.
#[derive(Clone, Debug, PartialEq, Eq)]
pub struct StagedCreate<B = Vec<u8>> {
    pub default_payload: B,
    pub version: VersionStamp,
}

impl View for StagedCreate<Vec<u8>> {
    type V = StagedCreate<Seq<u8>>;

    open spec fn view(&self) -> StagedCreate<Seq<u8>> {
        StagedCreate { default_payload: self.default_payload@, version: self.version }
    }
}

/// An open file.
#[derive(Clone, Debug, PartialEq, Eq)]
pub struct Handle<S = String, B = Vec<u8>, P = MountPath> {
    pub path: P,
    pub buffer: B,
    pub dirty: bool,
    pub committed: bool,
    pub writable: bool,
    pub commit_seed: S,
    pub mode: HandleMode,
    /// Where the buffer begins in a log.
    pub base_offset: usize,
    pub staged_create: Option<StagedCreate<B>>,
}

/// The model of an open file.
pub type OpenFile = Handle<Text, Seq<u8>, Components>;

impl View for Handle<String, Vec<u8>, MountPath> {
    type V = OpenFile;

    open spec fn view(&self) -> OpenFile {
        Handle {
            path: self.path@,
            buffer: self.buffer@,
            dirty: self.dirty,
            committed: self.committed,
            writable: self.writable,
            commit_seed: self.commit_seed@,
            mode: self.mode,
            base_offset: self.base_offset,
            staged_create: option_view(self.staged_create),
        }
    }
}

/// How a file is to be opened.
#[derive(Clone, Copy, Debug, PartialEq, Eq, Structural)]
pub struct RuntimeOpenOptions {
    pub writable: bool,
    pub truncate: bool,
    pub create: bool,
}

impl Default for RuntimeOpenOptions {
    fn default() -> (options: Self)
        ensures
            options == (RuntimeOpenOptions { writable: false, truncate: false, create: false }),
    {
        RuntimeOpenOptions { writable: false, truncate: false, create: false }
    }
}

/// The number of an open file.
#[derive(Clone, Copy, Debug, PartialEq, Eq, Structural)]
pub struct RuntimeHandleId(pub u64);

impl RuntimeHandleId {
    /// The open file with a number.
    pub fn from_raw(raw: u64) -> (handle: Self)
        ensures
            handle == RuntimeHandleId(raw),
    {
        RuntimeHandleId(raw)
    }

    /// The number.
    pub fn raw(self) -> (raw: u64)
        ensures
            raw == self.0,
    {
        self.0
    }
}

/// The open files of a mount, and what the next ones are numbered with.
pub struct Handles {
    handles: HashMap<u64, Handle>,
    next_fh: u64,
    mount_name: String,
    mount_instance: u128,
    next_commit_id: u64,
}

/// The model of the open files.
#[verifier::ext_equal]
pub struct Session {
    pub files: Map<u64, OpenFile>,
    pub next_fh: u64,
    pub mount_name: Text,
    pub instance: u128,
    pub next_commit: u64,
}

/// The models of open files.
pub open spec fn file_models(handles: Map<u64, Handle>) -> Map<u64, OpenFile> {
    handles.map_values(|handle: Handle| handle@)
}

impl View for Handles {
    type V = Session;

    closed spec fn view(&self) -> Session {
        Session {
            files: file_models(self.handles@),
            next_fh: self.next_fh,
            mount_name: self.mount_name@,
            instance: self.mount_instance,
            next_commit: self.next_commit_id,
        }
    }
}

impl Session {
    /// The seed of the next commit.
    pub open spec fn seed(self) -> Text {
        seed_text(self.mount_name, self.instance, self.next_commit)
    }

    /// After the seed of the next commit was given out.
    pub open spec fn seeded(self) -> Session {
        Session { next_commit: next_id(self.next_commit), ..self }
    }

    /// With an open file.
    pub open spec fn with(self, fh: u64, file: OpenFile) -> Session {
        Session { files: self.files.insert(fh, file), ..self }
    }

    /// Without an open file.
    pub open spec fn without(self, fh: u64) -> Session {
        Session { files: self.files.remove(fh), ..self }
    }
}

/// After the seed of the next commit was given out, if it was.
pub open spec fn spent_seed(session: Session, used: bool) -> Session {
    if used {
        session.seeded()
    } else {
        session
    }
}

// ---------------------------------------------------------------------------
// Opening
// ---------------------------------------------------------------------------

/// What a file begins with when it is opened: its buffer, where that begins, and what a
/// new file holds.
pub open spec fn first_state(
    talk: Talk,
    facts: Seq<Fact>,
    status: MountStatus,
    mounted_at: Time,
    path: Components,
    mode: HandleMode,
    options: RuntimeOpenOptions,
) -> Step<(Seq<u8>, usize, Option<StagedCreate<Seq<u8>>>)> {
    if !options.writable {
        (Ok((Seq::empty(), 0, None)), talk)
    } else if options.create {
        let (payload, talk) = creation(talk, facts, path);
        match payload {
            Err(stop) => (Err(stop), talk),
            Ok(payload) => {
                let (now, talk) = talk.time(StorageRequest::CurrentTime);
                match now {
                    Err(stop) => (Err(stop), talk),
                    Ok(now) => (
                        Ok(
                            (
                                Seq::empty(),
                                0,
                                Some(
                                    StagedCreate {
                                        default_payload: payload,
                                        version: VersionStamp::of(now),
                                    },
                                ),
                            ),
                        ),
                        talk,
                    ),
                }
            },
        }
    } else if options.truncate {
        (Ok((Seq::empty(), 0, None)), talk)
    } else {
        let (snapshot, talk) = content_at(talk, facts, status, mounted_at, path);
        match (mode, snapshot) {
            (HandleMode::JsonLines, Ok(snapshot)) => (
                Ok((Seq::empty(), snapshot.bytes.len() as usize, None)),
                talk,
            ),
            (HandleMode::JsonLines, Err(Pause::Fail(number))) if number == errno::ENOENT => (
                Ok((Seq::empty(), 0, None)),
                talk,
            ),
            (HandleMode::WholeValue, Ok(snapshot)) => (Ok((snapshot.bytes, 0, None)), talk),
            (_, Err(stop)) => (Err(stop), talk),
        }
    }
}

/// That a file may be opened as it is to be.
pub open spec fn openable(talk: Talk, path: Components, options: RuntimeOpenOptions) -> Step<
    HandleMode,
> {
    if !options.writable {
        (Ok(HandleMode::WholeValue), talk)
    } else {
        let (allowed, talk) = gate_passed(talk);
        match allowed {
            Err(stop) => (Err(stop), talk),
            Ok(()) => match mode_of(path) {
                Err(number) => (Err(Pause::Fail(number)), talk),
                Ok(HandleMode::JsonLines) => if options.truncate {
                    (Err(Pause::Fail(errno::EROFS)), talk)
                } else {
                    (Ok(HandleMode::JsonLines), talk)
                },
                Ok(mode) => (Ok(mode), talk),
            },
        }
    }
}

/// A file that is opened.
pub open spec fn opened(
    talk: Talk,
    facts: Seq<Fact>,
    status: MountStatus,
    mounted_at: Time,
    path: Components,
    options: RuntimeOpenOptions,
    seed: Text,
) -> Step<OpenFile> {
    let (mode, talk) = openable(talk, path, options);
    match mode {
        Err(stop) => (Err(stop), talk),
        Ok(mode) => {
            let (state, talk) = first_state(talk, facts, status, mounted_at, path, mode, options);
            match state {
                Err(stop) => (Err(stop), talk),
                Ok((buffer, base_offset, staged_create)) => (
                    Ok(
                        Handle {
                            path,
                            buffer,
                            dirty: options.writable && (options.truncate || options.create),
                            committed: false,
                            writable: options.writable,
                            commit_seed: seed,
                            mode,
                            base_offset,
                            staged_create,
                        },
                    ),
                    talk,
                ),
            }
        },
    }
}

/// The open files after one more was opened under the next number. The number is spent
/// even where opening fails.
pub open spec fn session_opened(session: Session, file: Result<OpenFile, Stop>) -> Session {
    let spent = Session { next_fh: (session.next_fh + 1) as u64, ..session };
    match file {
        Ok(file) => spent.seeded().with(session.next_fh, file),
        Err(Pause::Fail(_)) => spent,
        Err(Pause::Ask(_)) => session,
    }
}

/// The open files after a file was opened under a given number, where it was not open.
pub open spec fn session_joined(session: Session, fh: u64, file: Result<OpenFile, Stop>) -> Session {
    match file {
        Ok(file) => session.seeded().with(fh, file),
        Err(_) => session,
    }
}

// ---------------------------------------------------------------------------
// Reading back
// ---------------------------------------------------------------------------

/// Bytes cut to a length, or filled up with zeros.
pub open spec fn fitted(bytes: Seq<u8>, len: nat) -> Seq<u8> {
    Seq::new(
        len,
        |i: int|
            if i < bytes.len() {
                bytes[i]
            } else {
                0u8
            },
    )
}

/// What reading an open file gives: what is staged in it, and behind that the log or the
/// file.
pub open spec fn handle_content(
    talk: Talk,
    facts: Seq<Fact>,
    status: MountStatus,
    mounted_at: Time,
    file: Option<OpenFile>,
    path: Components,
) -> Step<Seq<u8>> {
    match file {
        Some(file) if file.path == path && file.dirty => match file.mode {
            HandleMode::WholeValue => (Ok(file.buffer), talk),
            HandleMode::JsonLines => {
                let (snapshot, talk) = content_at(talk, facts, status, mounted_at, path);
                match snapshot {
                    Ok(snapshot) => (
                        Ok(fitted(snapshot.bytes, file.base_offset as nat) + file.buffer),
                        talk,
                    ),
                    Err(Pause::Fail(number)) if number == errno::ENOENT => (
                        Ok(fitted(Seq::empty(), file.base_offset as nat) + file.buffer),
                        talk,
                    ),
                    Err(stop) => (Err(stop), talk),
                }
            },
        },
        _ => {
            let (snapshot, talk) = content_at(talk, facts, status, mounted_at, path);
            match snapshot {
                Ok(snapshot) => (Ok(snapshot.bytes), talk),
                Err(stop) => (Err(stop), talk),
            }
        },
    }
}

/// The file that is open under a number.
pub open spec fn file_at(session: Session, fh: u64) -> Option<OpenFile> {
    if session.files.dom().contains(fh) {
        Some(session.files[fh])
    } else {
        None
    }
}

/// What reading a path through an open file gives.
pub open spec fn read_through(
    session: Session,
    talk: Talk,
    facts: Seq<Fact>,
    status: MountStatus,
    mounted_at: Time,
    fh: u64,
    path: Components,
) -> Step<Seq<u8>> {
    match JetStreamPath::parsed(mount_text(path)) {
        Err(error) => (Err(Pause::Fail(error.number().0)), talk),
        Ok(_) => handle_content(talk, facts, status, mounted_at, file_at(session, fh), path),
    }
}

// ---------------------------------------------------------------------------
// Staging
// ---------------------------------------------------------------------------

/// Bytes with others written over them from a place on; zeros fill what lies between.
pub open spec fn patched(bytes: Seq<u8>, start: int, data: Seq<u8>) -> Seq<u8> {
    let end = start + data.len();
    Seq::new(
        if bytes.len() >= end {
            bytes.len()
        } else {
            end as nat
        },
        |i: int|
            if start <= i < end {
                data[i - start]
            } else if i < bytes.len() {
                bytes[i]
            } else {
                0u8
            },
    )
}

/// Bytes filled up with zeros to a length at least.
pub open spec fn grown(bytes: Seq<u8>, len: nat) -> Seq<u8> {
    if bytes.len() >= len {
        bytes
    } else {
        fitted(bytes, len)
    }
}

/// A file that was committed gets a new seed before it changes again.
pub open spec fn renewed(session: Session, file: OpenFile) -> OpenFile {
    if file.committed {
        Handle { commit_seed: session.seed(), ..file }
    } else {
        file
    }
}

/// The open files once a seed was given out for a file that was committed.
pub open spec fn seeded_for(session: Session, file: OpenFile) -> Session {
    if file.committed {
        session.seeded()
    } else {
        session
    }
}

/// Where in the buffer of a file a place lies.
pub open spec fn place_in_buffer(file: OpenFile, offset: usize) -> Option<usize> {
    match file.mode {
        HandleMode::WholeValue => Some(offset),
        HandleMode::JsonLines => if offset >= file.base_offset {
            Some((offset - file.base_offset) as usize)
        } else {
            None
        },
    }
}

/// A writable file after data was staged in it, and how that went.
pub open spec fn staged(file: OpenFile, offset: usize, data: Seq<u8>) -> (
    Result<usize, i32>,
    OpenFile,
) {
    match place_in_buffer(file, offset) {
        None => (Err(errno::EINVAL), file),
        Some(start) => if start + data.len() > usize::MAX {
            (Err(errno::EINVAL), Handle { buffer: grown(file.buffer, start as nat), ..file })
        } else {
            (
                Ok(data.len() as usize),
                Handle {
                    buffer: patched(file.buffer, start as int, data),
                    dirty: true,
                    committed: false,
                    ..file
                },
            )
        },
    }
}

/// Stages data in an open file. While a question is open nothing changes.
pub open spec fn write_staged(
    session: Session,
    talk: Talk,
    fh: u64,
    offset: i64,
    data: Seq<u8>,
) -> (Step<usize>, Session) {
    if offset < 0 {
        ((Err(Pause::Fail(errno::EINVAL)), talk), session)
    } else {
        match file_at(session, fh) {
            None => ((Err(Pause::Fail(errno::EBADF)), talk), session),
            Some(file) => {
                let (allowed, talk) = gate_passed(talk);
                match allowed {
                    Err(Pause::Ask(request)) => ((Err(Pause::Ask(request)), talk), session),
                    Err(Pause::Fail(number)) => (
                        (Err(Pause::Fail(number)), talk),
                        seeded_for(session, file),
                    ),
                    Ok(()) => if !file.writable {
                        (
                            (Err(Pause::Fail(errno::EBADF)), talk),
                            seeded_for(session, file).with(fh, renewed(session, file)),
                        )
                    } else {
                        let (result, after) = staged(
                            renewed(session, file),
                            offset as usize,
                            data,
                        );
                        let session = seeded_for(session, file).with(fh, after);
                        match result {
                            Ok(len) => ((Ok(len), talk), session),
                            Err(number) => ((Err(Pause::Fail(number)), talk), session),
                        }
                    },
                }
            },
        }
    }
}

/// Cuts an open file to nothing. While a question is open nothing changes.
pub open spec fn truncate_staged(session: Session, talk: Talk, fh: u64) -> (Step<()>, Session) {
    match file_at(session, fh) {
        None => ((Err(Pause::Fail(errno::EBADF)), talk), session),
        Some(file) => if file.mode == HandleMode::JsonLines {
            ((Err(Pause::Fail(errno::EROFS)), talk), session)
        } else {
            let (allowed, talk) = gate_passed(talk);
            match allowed {
                Err(Pause::Ask(request)) => ((Err(Pause::Ask(request)), talk), session),
                Err(Pause::Fail(number)) => (
                    (Err(Pause::Fail(number)), talk),
                    seeded_for(session, file),
                ),
                Ok(()) => if !file.writable {
                    (
                        (Err(Pause::Fail(errno::EBADF)), talk),
                        seeded_for(session, file).with(fh, renewed(session, file)),
                    )
                } else {
                    (
                        (Ok(()), talk),
                        seeded_for(session, file).with(
                            fh,
                            Handle {
                                buffer: Seq::empty(),
                                base_offset: 0,
                                dirty: true,
                                committed: false,
                                ..renewed(session, file)
                            },
                        ),
                    )
                },
            }
        },
    }
}

// ---------------------------------------------------------------------------
// Committing
// ---------------------------------------------------------------------------

/// What a commit of an open file writes: its buffer, or what a new file holds where
/// nothing was written to it.
pub open spec fn commit_bytes(file: OpenFile) -> Seq<u8> {
    match file.staged_create {
        Some(staged) if file.mode == HandleMode::WholeValue && file.buffer.len() == 0 => staged.default_payload,
        _ => file.buffer,
    }
}

/// Whether there is anything to commit in an open file.
pub open spec fn uncommitted(file: OpenFile) -> bool {
    file.writable && file.dirty && !file.committed
}

/// An open file after what was staged in it was committed: a log goes on behind it.
pub open spec fn settled_file(file: OpenFile) -> OpenFile {
    let bytes = commit_bytes(file);
    if file.mode == HandleMode::JsonLines {
        Handle {
            buffer: Seq::empty(),
            base_offset: if file.base_offset + bytes.len() > usize::MAX {
                usize::MAX
            } else {
                (file.base_offset + bytes.len()) as usize
            },
            dirty: false,
            committed: true,
            ..file
        }
    } else {
        Handle { buffer: bytes, dirty: false, committed: true, ..file }
    }
}

/// Commits an open file. Only a commit that succeeds changes it.
pub open spec fn handle_committed(session: Session, talk: Talk, fh: u64, mounted_at: Time) -> (
    Step<()>,
    Session,
) {
    match file_at(session, fh) {
        Some(file) if uncommitted(file) => {
            let (done, talk) = committed(
                talk,
                file.path,
                commit_bytes(file),
                file.commit_seed,
                mounted_at,
            );
            match done {
                Ok(()) => ((Ok(()), talk), session.with(fh, settled_file(file))),
                Err(stop) => ((Err(stop), talk), session),
            }
        },
        _ => ((Ok(()), talk), session),
    }
}

/// Commits an open file and closes it, whether the commit succeeds or not.
pub open spec fn handle_released(session: Session, talk: Talk, fh: u64, mounted_at: Time) -> (
    Step<()>,
    Session,
) {
    let ((done, talk), after) = handle_committed(session, talk, fh, mounted_at);
    if settled(done) {
        ((done, talk), after.without(fh))
    } else {
        ((done, talk), session)
    }
}

/// The attributes of a file that was just created: what is staged in it counts, where
/// whole values are written.
pub open spec fn created_attr(
    session: Session,
    talk: Talk,
    facts: Seq<Fact>,
    status: MountStatus,
    mounted_at: Time,
    stale: Set<Components>,
    rows: Seq<Row>,
    fh: u64,
    path: Components,
) -> (Step<RuntimeAttr>, bool) {
    match file_at(session, fh) {
        None => ((Err(Pause::Fail(errno::EBADF)), talk), false),
        Some(file) => if file.path != path {
            ((Err(Pause::Fail(errno::EINVAL)), talk), false)
        } else {
            match file.staged_create {
                Some(staged) if file.mode == HandleMode::WholeValue => (
                    (
                        Ok(
                            RuntimeAttr {
                                kind: EntryKind::File,
                                size: file.buffer.len() as u64,
                                version: staged.version,
                            },
                        ),
                        talk,
                    ),
                    false,
                ),
                _ => attr_of(talk, facts, status, mounted_at, stale, rows, path),
            }
        },
    }
}

// ---------------------------------------------------------------------------
// Laws
// ---------------------------------------------------------------------------

/// What was staged is read back: the data stands where it was written, what was there
/// before stands everywhere else, and zeros stand between.
pub proof fn law_staged_data_is_read_back(file: OpenFile, offset: usize, data: Seq<u8>)
    requires
        file.mode == HandleMode::WholeValue,
        offset + data.len() <= usize::MAX,
    ensures
        ({
            let after = staged(file, offset, data).1;
            &&& staged(file, offset, data).0 == Ok::<usize, i32>(data.len() as usize)
            &&& forall|talk: Talk, facts: Seq<Fact>, status: MountStatus, mounted_at: Time| #[trigger]
                handle_content(talk, facts, status, mounted_at, Some(after), file.path) == (
                    Ok::<Seq<u8>, Stop>(after.buffer),
                    talk,
                )
            &&& after.buffer.subrange(offset as int, offset + data.len()) == data
            &&& forall|i: int|
                0 <= i < file.buffer.len() && !(offset <= i < offset + data.len())
                    ==> #[trigger] after.buffer[i] == file.buffer[i]
            &&& forall|i: int|
                file.buffer.len() <= i < offset && i < after.buffer.len()
                    ==> #[trigger] after.buffer[i] == 0
        }),
{
    let after = staged(file, offset, data).1;
    assert(after.buffer.subrange(offset as int, offset + data.len()) =~= data);
}

/// Writing to an open file and cutting it store nothing yet: whether writes are accepted
/// is all that is asked.
pub proof fn law_staging_stores_nothing(
    session: Session,
    talk: Talk,
    fh: u64,
    offset: i64,
    data: Seq<u8>,
)
    ensures
        ({
            let (wrote, after) = write_staged(session, talk, fh, offset, data).0;
            &&& after == talk || after == gate_passed(talk).1
            &&& wrote matches Err(Pause::Ask(request)) ==> request is WriteGate
        }),
        ({
            let (cut, after) = truncate_staged(session, talk, fh).0;
            &&& after == talk || after == gate_passed(talk).1
            &&& cut matches Err(Pause::Ask(request)) ==> request is WriteGate
        }),
{
}

/// A commit writes what was staged, byte for byte, where anything was.
pub proof fn law_commits_write_what_was_staged(file: OpenFile, offset: usize, data: Seq<u8>)
    requires
        file.mode == HandleMode::WholeValue,
        data.len() > 0,
        offset + data.len() <= usize::MAX,
    ensures
        commit_bytes(staged(file, offset, data).1) == patched(file.buffer, offset as int, data),
        file.writable ==> uncommitted(staged(file, offset, data).1),
{
}

/// Logs are never cut, neither through an open file nor by opening one.
pub proof fn law_open_logs_are_not_cut(
    session: Session,
    talk: Talk,
    fh: u64,
    path: Components,
    create: bool,
)
    ensures
        (file_at(session, fh) matches Some(file) && file.mode == HandleMode::JsonLines)
            ==> truncate_staged(session, talk, fh) == (
            (Err::<(), Stop>(Pause::Fail(errno::EROFS)), talk),
            session,
        ),
        mode_of(path) == Ok::<HandleMode, i32>(HandleMode::JsonLines) && gate_passed(talk).0 is Ok
            ==> openable(
            talk,
            path,
            RuntimeOpenOptions { writable: true, truncate: true, create },
        ) == (Err::<HandleMode, Stop>(Pause::Fail(errno::EROFS)), gate_passed(talk).1),
{
}

/// Lines that are staged are read back behind what the log held when it was opened.
pub proof fn law_staged_lines_follow_the_log(
    talk: Talk,
    facts: Seq<Fact>,
    status: MountStatus,
    mounted_at: Time,
    file: OpenFile,
    snapshot: Snapshot,
)
    requires
        file.mode == HandleMode::JsonLines,
        file.dirty,
        content_at(talk, facts, status, mounted_at, file.path).0 == Ok::<Snapshot, Stop>(snapshot),
        snapshot.bytes.len() == file.base_offset,
    ensures
        handle_content(talk, facts, status, mounted_at, Some(file), file.path).0 == Ok::<
            Seq<u8>,
            Stop,
        >(snapshot.bytes + file.buffer),
{
    assert(fitted(snapshot.bytes, file.base_offset as nat) =~= snapshot.bytes);
}

/// What was committed is not committed again: a second commit asks nothing and changes
/// nothing.
pub proof fn law_commits_happen_once(session: Session, talk: Talk, fh: u64, mounted_at: Time)
    ensures
        ({
            let ((done, after), committed) = handle_committed(session, talk, fh, mounted_at);
            done is Ok ==> forall|later: Talk, at: Time| #[trigger]
                handle_committed(committed, later, fh, at) == (
                    (Ok::<(), Stop>(()), later),
                    committed,
                )
        }),
{
}

/// After a commit a log is written on behind what was committed, and only what is new
/// is committed next.
pub proof fn law_logs_go_on_behind_what_was_committed(file: OpenFile, data: Seq<u8>)
    requires
        file.mode == HandleMode::JsonLines,
        file.base_offset + file.buffer.len() + data.len() <= usize::MAX,
    ensures
        ({
            let settled = settled_file(file);
            let (result, after) = staged(settled, settled.base_offset, data);
            &&& settled.base_offset == file.base_offset + file.buffer.len()
            &&& result is Ok
            &&& commit_bytes(after) == data
        }),
{
    let settled = settled_file(file);
    let after = staged(settled, settled.base_offset, data).1;
    assert(after.buffer =~= data);
}

/// A closed file is no longer open, however its commit went.
pub proof fn law_released_files_are_closed(session: Session, talk: Talk, fh: u64, mounted_at: Time)
    ensures
        ({
            let ((done, _), after) = handle_released(session, talk, fh, mounted_at);
            settled(done) ==> file_at(after, fh) is None
        }),
{
}

/// What happens to one open file leaves the others as they are.
pub proof fn law_other_files_stay(
    session: Session,
    talk: Talk,
    fh: u64,
    other: u64,
    offset: i64,
    data: Seq<u8>,
    mounted_at: Time,
)
    requires
        fh != other,
    ensures
        file_at(write_staged(session, talk, fh, offset, data).1, other) == file_at(session, other),
        file_at(truncate_staged(session, talk, fh).1, other) == file_at(session, other),
        file_at(handle_committed(session, talk, fh, mounted_at).1, other) == file_at(
            session,
            other,
        ),
        file_at(handle_released(session, talk, fh, mounted_at).1, other) == file_at(session, other),
{
}

/// While a question is open no open file changes.
pub proof fn law_open_questions_change_nothing(
    session: Session,
    talk: Talk,
    fh: u64,
    offset: i64,
    data: Seq<u8>,
    mounted_at: Time,
)
    ensures
        !settled(write_staged(session, talk, fh, offset, data).0.0) ==> write_staged(
            session,
            talk,
            fh,
            offset,
            data,
        ).1 == session,
        !settled(truncate_staged(session, talk, fh).0.0) ==> truncate_staged(session, talk, fh).1
            == session,
        !settled(handle_committed(session, talk, fh, mounted_at).0.0) ==> handle_committed(
            session,
            talk,
            fh,
            mounted_at,
        ).1 == session,
        !settled(handle_released(session, talk, fh, mounted_at).0.0) ==> handle_released(
            session,
            talk,
            fh,
            mounted_at,
        ).1 == session,
{
}

// ---------------------------------------------------------------------------
// Execution
// ---------------------------------------------------------------------------

fn resize_bytes(bytes: &mut Vec<u8>, len: usize)
    ensures
        final(bytes)@ == fitted(old(bytes)@, len as nat),
{
    bytes.resize(len, 0u8);
    assert(bytes@ =~= fitted(old(bytes)@, len as nat));
}

/// What a commit of an open file writes.
pub fn handle_commit_bytes(handle: &Handle) -> (bytes: Vec<u8>)
    ensures
        bytes@ == commit_bytes(handle@),
{
    if handle.mode == HandleMode::WholeValue && handle.buffer.len() == 0 {
        if let Some(staged) = &handle.staged_create {
            return copy_bytes(staged.default_payload.as_slice());
        }
    }
    copy_bytes(handle.buffer.as_slice())
}

/// Writes data over bytes from a place on.
pub fn patch_bytes(bytes: &mut Vec<u8>, start: usize, data: &[u8])
    requires
        start + data@.len() <= usize::MAX,
    ensures
        final(bytes)@ == patched(old(bytes)@, start as int, data@),
{
    let ghost before = bytes@;
    let end = start + data.len();
    if bytes.len() < end {
        bytes.resize(end, 0u8);
    }
    let ghost wide = bytes@;
    let mut i: usize = 0;
    while i < data.len()
        invariant
            i <= data.len(),
            start + data@.len() == end,
            end <= bytes@.len(),
            bytes@.len() == wide.len(),
            forall|k: int| 0 <= k < i ==> bytes@[start + k] == #[trigger] data@[k],
            forall|k: int|
                0 <= k < wide.len() && !(start <= k < start + i) ==> #[trigger] bytes@[k]
                    == wide[k],
        decreases data.len() - i,
    {
        bytes.set(start + i, data[i]);
        i += 1;
    }
    assert forall|k: int| start <= k < end implies #[trigger] bytes@[k] == data@[k - start] by {
        assert(bytes@[start + (k - start)] == data@[k - start]);
    }
    assert(bytes@ =~= patched(before, start as int, data@));
}

fn stage(handle: &mut Handle, offset: usize, data: &[u8]) -> (result: Result<usize, i32>)
    ensures
        (result, final(handle)@) == staged(old(handle)@, offset, data@),
{
    let start = match handle.mode {
        HandleMode::WholeValue => offset,
        HandleMode::JsonLines => {
            if offset < handle.base_offset {
                return Err(errno::einval());
            }
            offset - handle.base_offset
        },
    };
    if data.len() > usize::MAX - start {
        let ghost before = handle.buffer@;
        if handle.buffer.len() < start {
            resize_bytes(&mut handle.buffer, start);
        }
        assert(handle.buffer@ == grown(before, start as nat));
        return Err(errno::einval());
    }
    patch_bytes(&mut handle.buffer, start, data);
    handle.dirty = true;
    handle.committed = false;
    Ok(data.len())
}

fn initial_handle_state(
    inquiry: &mut Inquiry,
    view: &MountView,
    path: &MountPath,
    mode: HandleMode,
    options: RuntimeOpenOptions,
) -> (result: Result<(Vec<u8>, usize, Option<StagedCreate>), Pause>)
    ensures
        ({
            let (state, talk) = first_state(
                old(inquiry)@,
                view.overlay@,
                view.status,
                view.mounted_at,
                path@,
                mode,
                options,
            );
            &&& final(inquiry)@ == talk
            &&& match (result, state) {
                (Ok((buffer, base_offset, staged)), Ok(expected)) => (
                    buffer@,
                    base_offset,
                    option_view(staged),
                ) == expected,
                (Err(pause), Err(stop)) => pause@ == stop,
                _ => false,
            }
        }),
{
    if !options.writable {
        return Ok((Vec::new(), 0, None));
    }
    if options.create {
        let target = create_target(inquiry, &view.overlay, path)?;
        let default_payload = target.into_default_payload();
        let now = inquiry.time(StorageRequest::CurrentTime)?;
        return Ok(
            (
                Vec::new(),
                0,
                Some(StagedCreate { default_payload, version: VersionStamp::at(now) }),
            ),
        );
    }
    if options.truncate {
        return Ok((Vec::new(), 0, None));
    }
    match read_bytes(inquiry, view, path) {
        Ok(snapshot) => match mode {
            HandleMode::JsonLines => Ok((Vec::new(), snapshot.bytes.len(), None)),
            HandleMode::WholeValue => Ok((snapshot.bytes, 0, None)),
        },
        Err(Pause::Fail(number)) => {
            if mode == HandleMode::JsonLines && number == errno::enoent() {
                Ok((Vec::new(), 0, None))
            } else {
                Err(Pause::Fail(number))
            }
        },
        Err(pause) => Err(pause),
    }
}

fn check_openable(inquiry: &mut Inquiry, path: &MountPath, options: RuntimeOpenOptions) -> (result: Result<
    HandleMode,
    Pause,
>)
    ensures
        (plain_outcome(result), final(inquiry)@) == openable(old(inquiry)@, path@, options),
{
    if !options.writable {
        return Ok(HandleMode::WholeValue);
    }
    ensure_writes_allowed(inquiry)?;
    match write_mode(path) {
        Err(number) => Err(Pause::Fail(number)),
        Ok(mode) => if options.truncate && mode == HandleMode::JsonLines {
            Err(Pause::Fail(errno::erofs()))
        } else {
            Ok(mode)
        },
    }
}

fn build_handle(
    inquiry: &mut Inquiry,
    view: &MountView,
    path: &MountPath,
    options: RuntimeOpenOptions,
    seed: String,
) -> (result: Result<Handle, Pause>)
    ensures
        (step_outcome(result), final(inquiry)@) == opened(
            old(inquiry)@,
            view.overlay@,
            view.status,
            view.mounted_at,
            path@,
            options,
            seed@,
        ),
{
    let mode = check_openable(inquiry, path, options)?;
    let (buffer, base_offset, staged_create) = initial_handle_state(
        inquiry,
        view,
        path,
        mode,
        options,
    )?;
    Ok(
        Handle {
            path: path.clone(),
            buffer,
            dirty: options.writable && (options.truncate || options.create),
            committed: false,
            writable: options.writable,
            commit_seed: seed,
            mode,
            base_offset,
            staged_create,
        },
    )
}

fn is_open<T>(result: &Result<T, Pause>) -> (open: bool)
    ensures
        open == !settled(plain_outcome(*result)),
{
    match result {
        Err(Pause::Ask(_)) => true,
        _ => false,
    }
}

impl Handles {
    /// No open files yet. Numbers of open files begin with 2, those of commits with 1.
    pub fn new(mount_name: &str, mount_instance: u128) -> (handles: Self)
        ensures
            handles@ == (Session {
                files: Map::empty(),
                next_fh: 2,
                mount_name: mount_name@,
                instance: mount_instance,
                next_commit: 1,
            }),
    {
        let handles = Handles {
            handles: HashMap::new(),
            next_fh: 2,
            mount_name: mount_name.to_owned(),
            mount_instance,
            next_commit_id: 1,
        };
        assert(handles@.files =~= Map::empty());
        handles
    }

    /// The seed of the next commit.
    pub fn commit_seed(&self) -> (seed: String)
        ensures
            seed@ == self@.seed(),
    {
        commit_seed(self.mount_name.as_str(), self.mount_instance, self.next_commit_id)
    }

    /// Gives the seed of the next commit out.
    pub fn spend_seed(&mut self)
        ensures
            final(self)@ == old(self)@.seeded(),
    {
        self.next_commit_id = following_id(self.next_commit_id);
    }

    /// How many numbers are left for open files.
    pub fn room(&self) -> (room: u64)
        ensures
            room == u64::MAX - self@.next_fh,
    {
        u64::MAX - self.next_fh
    }

    /// Whether a file is open under a number.
    pub fn contains(&self, fh: u64) -> (found: bool)
        ensures
            found == (file_at(self@, fh) is Some),
    {
        self.handles.contains_key(&fh)
    }

    /// The file that is open under a number.
    pub fn get(&self, fh: u64) -> (handle: Option<&Handle>)
        ensures
            option_ref_view(handle) == file_at(self@, fh),
    {
        self.handles.get(&fh)
    }

    fn put(&mut self, fh: u64, handle: Handle)
        ensures
            final(self)@ == old(self)@.with(fh, handle@),
    {
        let ghost before = self.handles@;
        self.handles.insert(fh, handle);
        assert(file_models(self.handles@) =~= file_models(before).insert(fh, handle@));
    }

    /// Closes an open file without committing it.
    pub fn discard(&mut self, fh: u64)
        ensures
            final(self)@ == old(self)@.without(fh),
    {
        let ghost before = self.handles@;
        let _ = self.handles.remove(&fh);
        assert(file_models(self.handles@) =~= file_models(before).remove(fh));
    }

    fn take(&mut self, fh: u64) -> (handle: Option<Handle>)
        ensures
            option_view(handle) == file_at(old(self)@, fh),
            final(self)@ == old(self)@.without(fh),
    {
        let ghost before = self.handles@;
        let handle = self.handles.remove(&fh);
        assert(file_models(self.handles@) =~= file_models(before).remove(fh));
        handle
    }

    /// Opens a file under the next number. The numbers must not have run out.
    pub fn open_handle(
        &mut self,
        inquiry: &mut Inquiry,
        view: &MountView,
        path: &MountPath,
        options: RuntimeOpenOptions,
    ) -> (result: Result<RuntimeHandleId, Pause>)
        requires
            old(self)@.next_fh < u64::MAX,
        ensures
            ({
                let (file, talk) = opened(
                    old(inquiry)@,
                    view.overlay@,
                    view.status,
                    view.mounted_at,
                    path@,
                    options,
                    old(self)@.seed(),
                );
                &&& final(inquiry)@ == talk
                &&& final(self)@ == session_opened(old(self)@, file)
                &&& plain_outcome(result) == match file {
                    Ok(_) => Ok::<RuntimeHandleId, Stop>(RuntimeHandleId(old(self)@.next_fh)),
                    Err(stop) => Err(stop),
                }
            }),
    {
        let seed = self.commit_seed();
        match build_handle(inquiry, view, path, options, seed) {
            Ok(handle) => {
                let fh = self.next_fh;
                self.next_fh = fh + 1;
                self.spend_seed();
                self.put(fh, handle);
                Ok(RuntimeHandleId(fh))
            },
            Err(Pause::Fail(number)) => {
                self.next_fh = self.next_fh + 1;
                Err(Pause::Fail(number))
            },
            Err(pause) => Err(pause),
        }
    }

    /// Opens a file for writing under a given number, unless one is open there.
    pub fn writable_handle(
        &mut self,
        inquiry: &mut Inquiry,
        view: &MountView,
        raw_handle: u64,
        path: &MountPath,
    ) -> (result: Result<RuntimeHandleId, Pause>)
        ensures
            file_at(old(self)@, raw_handle) is Some ==> {
                &&& plain_outcome(result) == Ok::<RuntimeHandleId, Stop>(RuntimeHandleId(raw_handle))
                &&& final(self)@ == old(self)@
                &&& final(inquiry)@ == old(inquiry)@
            },
            file_at(old(self)@, raw_handle) is None ==> {
                let (file, talk) = opened(
                    old(inquiry)@,
                    view.overlay@,
                    view.status,
                    view.mounted_at,
                    path@,
                    RuntimeOpenOptions { writable: true, truncate: false, create: false },
                    old(self)@.seed(),
                );
                &&& final(inquiry)@ == talk
                &&& final(self)@ == session_joined(old(self)@, raw_handle, file)
                &&& plain_outcome(result) == match file {
                    Ok(_) => Ok::<RuntimeHandleId, Stop>(RuntimeHandleId(raw_handle)),
                    Err(stop) => Err(stop),
                }
            },
    {
        if !self.contains(raw_handle) {
            let seed = self.commit_seed();
            let options = RuntimeOpenOptions { writable: true, truncate: false, create: false };
            let handle = build_handle(inquiry, view, path, options, seed)?;
            self.spend_seed();
            self.put(raw_handle, handle);
        }
        Ok(RuntimeHandleId(raw_handle))
    }

    /// What reading a path through an open file gives.
    pub fn read_handle(
        &self,
        inquiry: &mut Inquiry,
        view: &MountView,
        handle: RuntimeHandleId,
        path: &MountPath,
    ) -> (result: Result<Vec<u8>, Pause>)
        ensures
            (step_outcome(result), final(inquiry)@) == read_through(
                self@,
                old(inquiry)@,
                view.overlay@,
                view.status,
                view.mounted_at,
                handle.0,
                path@,
            ),
    {
        if let Err(error) = JetStreamPath::parse(path.as_str()) {
            return Err(Pause::Fail(error.errno().get()));
        }
        if let Some(file) = self.get(handle.0) {
            if file.path.same(path) && file.dirty {
                if file.mode == HandleMode::WholeValue {
                    return Ok(copy_bytes(file.buffer.as_slice()));
                }
                let mut bytes = match read_bytes(inquiry, view, path) {
                    Ok(snapshot) => snapshot.bytes,
                    Err(Pause::Fail(number)) => {
                        if number == errno::enoent() {
                            Vec::new()
                        } else {
                            return Err(Pause::Fail(number));
                        }
                    },
                    Err(pause) => {
                        return Err(pause);
                    },
                };
                resize_bytes(&mut bytes, file.base_offset);
                append_bytes(&mut bytes, file.buffer.as_slice());
                return Ok(bytes);
            }
        }
        let snapshot = read_bytes(inquiry, view, path)?;
        Ok(snapshot.bytes)
    }

    /// Stages data in an open file.
    pub fn write_to_handle_buffer(
        &mut self,
        inquiry: &mut Inquiry,
        handle: RuntimeHandleId,
        offset: i64,
        data: &[u8],
    ) -> (result: Result<usize, Pause>)
        ensures
            ((plain_outcome(result), final(inquiry)@), final(self)@) == write_staged(
                old(self)@,
                old(inquiry)@,
                handle.0,
                offset,
                data@,
            ),
    {
        let fh = handle.0;
        if offset < 0 {
            return Err(Pause::Fail(errno::einval()));
        }
        let committed = match self.get(fh) {
            Some(file) => file.committed,
            None => {
                return Err(Pause::Fail(errno::ebadf()));
            },
        };
        match ensure_writes_allowed(inquiry) {
            Ok(()) => {},
            Err(pause) => {
                let asking = match &pause {
                    Pause::Ask(_) => true,
                    Pause::Fail(_) => false,
                };
                if committed && !asking {
                    self.spend_seed();
                }
                return Err(pause);
            },
        }
        let ghost before = self@;
        let seed = self.commit_seed();
        if committed {
            self.spend_seed();
        }
        let mut file = match self.take(fh) {
            Some(file) => file,
            None => {
                return Err(Pause::Fail(errno::ebadf()));
            },
        };
        let ghost found = file@;
        if committed {
            file.commit_seed = seed;
        }
        assert(file@ == renewed(before, found));
        let result = if !file.writable {
            Err(errno::ebadf())
        } else {
            stage(&mut file, offset as usize, data)
        };
        self.put(fh, file);
        assert(self@.files =~= seeded_for(before, found).files.insert(fh, file@));
        match result {
            Ok(len) => Ok(len),
            Err(number) => Err(Pause::Fail(number)),
        }
    }

    /// Cuts an open file to nothing.
    pub fn stage_truncate(&mut self, inquiry: &mut Inquiry, handle: RuntimeHandleId) -> (result: Result<
        (),
        Pause,
    >)
        ensures
            ((plain_outcome(result), final(inquiry)@), final(self)@) == truncate_staged(
                old(self)@,
                old(inquiry)@,
                handle.0,
            ),
    {
        let fh = handle.0;
        let committed = match self.get(fh) {
            Some(file) => {
                if file.mode == HandleMode::JsonLines {
                    return Err(Pause::Fail(errno::erofs()));
                }
                file.committed
            },
            None => {
                return Err(Pause::Fail(errno::ebadf()));
            },
        };
        match ensure_writes_allowed(inquiry) {
            Ok(()) => {},
            Err(pause) => {
                let asking = match &pause {
                    Pause::Ask(_) => true,
                    Pause::Fail(_) => false,
                };
                if committed && !asking {
                    self.spend_seed();
                }
                return Err(pause);
            },
        }
        let ghost before = self@;
        let seed = self.commit_seed();
        if committed {
            self.spend_seed();
        }
        let mut file = match self.take(fh) {
            Some(file) => file,
            None => {
                return Err(Pause::Fail(errno::ebadf()));
            },
        };
        let ghost found = file@;
        if committed {
            file.commit_seed = seed;
        }
        assert(file@ == renewed(before, found));
        let writable = file.writable;
        if writable {
            file.buffer = Vec::new();
            file.base_offset = 0;
            file.dirty = true;
            file.committed = false;
        }
        self.put(fh, file);
        assert(self@.files =~= seeded_for(before, found).files.insert(fh, file@));
        if writable {
            Ok(())
        } else {
            Err(Pause::Fail(errno::ebadf()))
        }
    }

    /// Commits what is staged in an open file.
    pub fn commit_handle(
        &mut self,
        inquiry: &mut Inquiry,
        handle: RuntimeHandleId,
        mounted_at: Time,
    ) -> (result: Result<(), Pause>)
        ensures
            ((plain_outcome(result), final(inquiry)@), final(self)@) == handle_committed(
                old(self)@,
                old(inquiry)@,
                handle.0,
                mounted_at,
            ),
    {
        let fh = handle.0;
        let bytes = match self.get(fh) {
            Some(file) => {
                if !file.writable || !file.dirty || file.committed {
                    return Ok(());
                }
                let bytes = handle_commit_bytes(file);
                commit_mount_path_with_seed(
                    inquiry,
                    &file.path,
                    bytes.as_slice(),
                    file.commit_seed.as_str(),
                    mounted_at,
                )?;
                bytes
            },
            None => {
                return Ok(());
            },
        };
        let ghost before = self@;
        let mut file = match self.take(fh) {
            Some(file) => file,
            None => {
                return Ok(());
            },
        };
        let ghost found = file@;
        if file.mode == HandleMode::JsonLines {
            file.base_offset = if bytes.len() > usize::MAX - file.base_offset {
                usize::MAX
            } else {
                file.base_offset + bytes.len()
            };
            file.buffer = Vec::new();
        } else {
            file.buffer = bytes;
        }
        file.dirty = false;
        file.committed = true;
        assert(file@ == settled_file(found));
        self.put(fh, file);
        assert(self@.files =~= before.files.insert(fh, file@));
        Ok(())
    }

    /// Whether a file is open under a number: that is all that a flush looks at.
    pub fn flush_handle(&self, handle: RuntimeHandleId) -> (result: Result<(), i32>)
        ensures
            result == if file_at(self@, handle.0) is Some {
                Ok::<(), i32>(())
            } else {
                Err::<(), i32>(errno::EBADF)
            },
    {
        if self.contains(handle.0) {
            Ok(())
        } else {
            Err(errno::ebadf())
        }
    }

    /// Commits what is staged in an open file, and closes it.
    pub fn release_handle(
        &mut self,
        inquiry: &mut Inquiry,
        handle: RuntimeHandleId,
        mounted_at: Time,
    ) -> (result: Result<(), Pause>)
        ensures
            ((plain_outcome(result), final(inquiry)@), final(self)@) == handle_released(
                old(self)@,
                old(inquiry)@,
                handle.0,
                mounted_at,
            ),
    {
        let result = self.commit_handle(inquiry, handle, mounted_at);
        if !is_open(&result) {
            self.discard(handle.0);
        }
        result
    }

    /// The attributes of a file that was just created.
    pub fn created_handle_attr(
        &self,
        inquiry: &mut Inquiry,
        view: &MountView,
        stale: &mut PathSet,
        paths: &PathCache,
        handle: RuntimeHandleId,
        path: &MountPath,
    ) -> (result: Result<RuntimeAttr, Pause>)
        ensures
            ({
                let (step, fresh) = created_attr(
                    self@,
                    old(inquiry)@,
                    view.overlay@,
                    view.status,
                    view.mounted_at,
                    old(stale)@,
                    paths@.rows,
                    handle.0,
                    path@,
                );
                &&& (plain_outcome(result), final(inquiry)@) == step
                &&& final(stale)@ == refreshed(old(stale)@, path@, fresh && settled(step.0))
            }),
    {
        match self.get(handle.0) {
            None => {
                return Err(Pause::Fail(errno::ebadf()));
            },
            Some(file) => {
                if !file.path.same(path) {
                    return Err(Pause::Fail(errno::einval()));
                }
                if file.mode == HandleMode::WholeValue {
                    if let Some(staged) = &file.staged_create {
                        return Ok(
                            RuntimeAttr {
                                kind: EntryKind::File,
                                size: file.buffer.len() as u64,
                                version: staged.version,
                            },
                        );
                    }
                }
            },
        }
        attr(inquiry, view, stale, paths, path)
    }

    /// Cuts the file at a path to nothing.
    pub fn truncate_path(&mut self, inquiry: &mut Inquiry, path: &MountPath, mounted_at: Time) -> (result:
        Result<(), Pause>)
        ensures
            ({
                let (step, used) = truncated(old(inquiry)@, path@, old(self)@.seed(), mounted_at);
                &&& (plain_outcome(result), final(inquiry)@) == step
                &&& final(self)@ == spent_seed(old(self)@, used && settled(step.0))
            }),
    {
        let seed = self.commit_seed();
        let (result, used) = truncate_path(inquiry, path, seed.as_str(), mounted_at);
        if used && !is_open(&result) {
            self.spend_seed();
        }
        result
    }

    /// Makes the file at a path.
    pub fn mknod(
        &mut self,
        inquiry: &mut Inquiry,
        view: &MountView,
        path: &MountPath,
        mode: u32,
    ) -> (result: Result<u64, Pause>)
        ensures
            ({
                let (step, used) = file_made(
                    old(inquiry)@,
                    view.overlay@,
                    path@,
                    mode,
                    old(self)@.seed(),
                    view.mounted_at,
                );
                &&& (plain_outcome(result), final(inquiry)@) == step
                &&& final(self)@ == spent_seed(old(self)@, used && settled(step.0))
            }),
    {
        let seed = self.commit_seed();
        let (result, used) = execute_mknod(
            inquiry,
            &view.overlay,
            path,
            mode,
            seed.as_str(),
            view.mounted_at,
        );
        if used && !is_open(&result) {
            self.spend_seed();
        }
        result
    }

    /// Moves a file.
    pub fn rename(
        &mut self,
        inquiry: &mut Inquiry,
        from_path: &MountPath,
        to_path: &MountPath,
        flags: u32,
    ) -> (result: Result<(), Pause>)
        ensures
            ({
                let (step, used) = moved(
                    old(inquiry)@,
                    from_path@,
                    to_path@,
                    flags,
                    old(self)@.seed(),
                );
                &&& (plain_outcome(result), final(inquiry)@) == step
                &&& final(self)@ == spent_seed(old(self)@, used && settled(step.0))
            }),
    {
        let seed = self.commit_seed();
        let (result, used) = execute_rename(inquiry, from_path, to_path, flags, seed.as_str());
        if used && !is_open(&result) {
            self.spend_seed();
        }
        result
    }
}

} // verus!
