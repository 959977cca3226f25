//! What an operation has done around itself: taking in changes that were seen, making
//! paths stale, minding the write gate, and keeping the latest errors.

use vstd::prelude::*;

use crate::errno;
use crate::inquiry::{
    plain_outcome, Inquiry, Pause, Reply, Step, Stop, StorageFailure, StorageRequest, Talk,
};
use crate::mount_paths::{mount_text, Components, MountPath};
use crate::text::{concat2, concat3, string_texts, Text};

verus! {

/// How many errors are kept.
pub const KEPT_ERRORS: usize = 32;

/// The text of a failure.
pub open spec fn failure_text(failure: StorageFailure<Text>) -> Text {
    match failure {
        StorageFailure::NotFound => "not found"@,
        StorageFailure::Other(message) => message,
    }
}

/// Taking in what has been seen to change in the storage. Where that cannot be had,
/// anything may have changed.
pub open spec fn drained(talk: Talk) -> Step<()> {
    let (drain, talk) = talk.try_done(StorageRequest::DrainWatchEvents);
    match drain {
        Err(stop) => (Err(stop), talk),
        Ok(Ok(())) => (Ok(()), talk),
        Ok(Err(failure)) => talk.complaining(
            "watch event drain failed: "@ + failure_text(failure),
        ).done(StorageRequest::WatchGap),
    }
}

/// Making stale what a change of a path touches. Where that cannot be told, it is the
/// path and all below it.
pub open spec fn invalidated(talk: Talk, path: Components) -> Step<()> {
    let (done, talk) = talk.try_done(StorageRequest::InvalidateLocal { path });
    match done {
        Err(stop) => (Err(stop), talk),
        Ok(Ok(())) => (Ok(()), talk),
        Ok(Err(failure)) => talk.complaining(
            "local invalidation planning failed for "@ + mount_text(path) + ": "@ + failure_text(
                failure,
            ),
        ).done(StorageRequest::InvalidateSubtree { path }),
    }
}

/// What follows the removal of a path: what it touches is stale, and its inode goes.
pub open spec fn unlinked(talk: Talk, path: Components) -> Step<()> {
    let (done, talk) = invalidated(talk, path);
    match done {
        Err(stop) => (Err(stop), talk),
        Ok(()) => talk.done(StorageRequest::ForgetPath { path }),
    }
}

/// Making the queued writes good. Afterwards everything is stale.
pub open spec fn replayed(talk: Talk) -> Step<()> {
    let (done, talk) = talk.try_done(StorageRequest::ReplayQueue);
    match done {
        Err(stop) => (Err(stop), talk),
        Ok(outcome) => {
            let talk = match outcome {
                Ok(()) => talk,
                Err(failure) => talk.complaining(
                    "queue replay failed: "@ + failure_text(failure),
                ),
            };
            let (accepting, talk) = talk.flag(StorageRequest::WriteGate);
            match accepting {
                Err(stop) => (Err(stop), talk),
                Ok(accepting) => {
                    let talk = if accepting {
                        talk
                    } else {
                        talk.complaining(
                            "writeback queue has pending entries after replay; mount is read-only"@,
                        )
                    };
                    talk.done(StorageRequest::InvalidateAll)
                },
            }
        },
    }
}

/// That writes are accepted: `EROFS` where they are not.
pub open spec fn gate_passed(talk: Talk) -> Step<()> {
    let (accepting, talk) = talk.flag(StorageRequest::WriteGate);
    match accepting {
        Err(stop) => (Err(stop), talk),
        Ok(true) => (Ok(()), talk),
        Ok(false) => (Err(Pause::Fail(errno::EROFS)), talk),
    }
}

/// Bringing the write gate up to date, with a complaint where it has just closed.
pub open spec fn gate_synced(talk: Talk, reason: Text) -> Step<()> {
    let (closed, talk) = talk.flag(StorageRequest::SyncWriteGate);
    match closed {
        Err(stop) => (Err(stop), talk),
        Ok(true) => (Ok(()), talk.complaining(reason)),
        Ok(false) => (Ok(()), talk),
    }
}

/// The kept errors after one more: the latest ones, in order.
pub open spec fn errors_after(errors: Seq<Text>, message: Text) -> Seq<Text> {
    let errors = errors.push(message);
    if errors.len() > KEPT_ERRORS {
        errors.drop_first()
    } else {
        errors
    }
}

/// The kept errors after more of them, one after another.
pub open spec fn errors_with(errors: Seq<Text>, more: Seq<Text>) -> Seq<Text>
    decreases more.len(),
{
    if more.len() == 0 {
        errors
    } else {
        errors_after(errors_with(errors, more.drop_last()), more.last())
    }
}

/// The newest error is always kept, in the last place, and the number of errors stays
/// within its limit.
pub proof fn law_kept_errors_are_the_latest(errors: Seq<Text>, message: Text)
    requires
        errors.len() <= KEPT_ERRORS,
    ensures
        errors_after(errors, message).len() <= KEPT_ERRORS,
        errors_after(errors, message).last() == message,
        errors.len() < KEPT_ERRORS ==> errors_after(errors, message) == errors.push(message),
        errors.len() == KEPT_ERRORS ==> errors_after(errors, message) == errors.drop_first().push(
            message,
        ),
{
    if errors.len() == KEPT_ERRORS {
        assert(errors.push(message).drop_first() =~= errors.drop_first().push(message));
    }
}

/// A closed write gate lets nothing pass: the first reply decides, and nothing more is
/// asked.
pub proof fn law_closed_gate_is_read_only(talk: Talk)
    requires
        talk.used < talk.replies.len(),
        talk.replies[talk.used as int] == Reply::Flag(false),
    ensures
        gate_passed(talk) == (
            Err::<(), Stop>(Pause::Fail(errno::EROFS)),
            talk.heard(),
        ),
{
}

/// The text of a failure.
pub fn describe_failure(failure: &StorageFailure) -> (text: String)
    ensures
        text@ == failure_text(failure@),
{
    match failure {
        StorageFailure::NotFound => "not found".to_owned(),
        StorageFailure::Other(message) => message.clone(),
    }
}

/// Takes in what has been seen to change in the storage.
pub fn apply_pending_watch_events(inquiry: &mut Inquiry) -> (result: Result<(), Pause>)
    ensures
        (plain_outcome(result), final(inquiry)@) == drained(old(inquiry)@),
{
    match inquiry.try_done(StorageRequest::DrainWatchEvents)? {
        Ok(()) => Ok(()),
        Err(failure) => {
            let reason = describe_failure(&failure);
            inquiry.complain(concat2("watch event drain failed: ", reason.as_str()));
            inquiry.done(StorageRequest::WatchGap)
        },
    }
}

/// Makes stale what a change of a path touches.
pub fn invalidate_after_local_mutation(inquiry: &mut Inquiry, path: &MountPath) -> (result: Result<
    (),
    Pause,
>)
    ensures
        (plain_outcome(result), final(inquiry)@) == invalidated(old(inquiry)@, path@),
{
    match inquiry.try_done(StorageRequest::InvalidateLocal { path: path.clone() })? {
        Ok(()) => Ok(()),
        Err(failure) => {
            let reason = describe_failure(&failure);
            let place = concat3("local invalidation planning failed for ", path.as_str(), ": ");
            inquiry.complain(concat2(place.as_str(), reason.as_str()));
            inquiry.done(StorageRequest::InvalidateSubtree { path: path.clone() })
        },
    }
}

/// Does what follows the removal of a path.
pub fn invalidate_after_local_unlink(inquiry: &mut Inquiry, path: &MountPath) -> (result: Result<
    (),
    Pause,
>)
    ensures
        (plain_outcome(result), final(inquiry)@) == unlinked(old(inquiry)@, path@),
{
    invalidate_after_local_mutation(inquiry, path)?;
    inquiry.done(StorageRequest::ForgetPath { path: path.clone() })
}

/// Makes the queued writes good.
pub fn replay_queue(inquiry: &mut Inquiry) -> (result: Result<(), Pause>)
    ensures
        (plain_outcome(result), final(inquiry)@) == replayed(old(inquiry)@),
{
    if let Err(failure) = inquiry.try_done(StorageRequest::ReplayQueue)? {
        let reason = describe_failure(&failure);
        inquiry.complain(concat2("queue replay failed: ", reason.as_str()));
    }
    if !inquiry.flag(StorageRequest::WriteGate)? {
        inquiry.complain(
            "writeback queue has pending entries after replay; mount is read-only".to_owned(),
        );
    }
    inquiry.done(StorageRequest::InvalidateAll)
}

/// Checks that writes are accepted.
pub fn ensure_writes_allowed(inquiry: &mut Inquiry) -> (result: Result<(), Pause>)
    ensures
        (plain_outcome(result), final(inquiry)@) == gate_passed(old(inquiry)@),
{
    if inquiry.flag(StorageRequest::WriteGate)? {
        Ok(())
    } else {
        Err(Pause::Fail(errno::erofs()))
    }
}

/// Brings the write gate up to date.
pub fn sync_writeback_gate(inquiry: &mut Inquiry, reason: &str) -> (result: Result<(), Pause>)
    ensures
        (plain_outcome(result), final(inquiry)@) == gate_synced(old(inquiry)@, reason@),
{
    if inquiry.flag(StorageRequest::SyncWriteGate)? {
        inquiry.complain(reason.to_owned());
    }
    Ok(())
}

/// Keeps an error, and lets go of the oldest where there are too many.
pub fn record_error(errors: &mut Vec<String>, message: String)
    ensures
        string_texts(final(errors)@) == errors_after(string_texts(old(errors)@), message@),
{
    let ghost before = errors@;
    errors.push(message);
    assert(string_texts(errors@) =~= string_texts(before).push(message@));
    if errors.len() > KEPT_ERRORS {
        let ghost full = errors@;
        let _ = errors.remove(0);
        assert(string_texts(errors@) =~= string_texts(full).drop_first());
    }
}

/// The kept errors after more of them, one after another.
pub fn with_errors(errors: &Vec<String>, more: &Vec<String>) -> (all: Vec<String>)
    ensures
        string_texts(all@) == errors_with(string_texts(errors@), string_texts(more@)),
{
    let mut all: Vec<String> = Vec::new();
    let mut i: usize = 0;
    while i < errors.len()
        invariant
            i <= errors.len(),
            all.len() == i,
            forall|k: int| 0 <= k < i ==> (#[trigger] all[k])@ == errors[k]@,
        decreases errors.len() - i,
    {
        all.push(errors[i].clone());
        i += 1;
    }
    assert(string_texts(all@) =~= string_texts(errors@));
    let ghost later = string_texts(more@);
    let mut k: usize = 0;
    assert(later.take(0) =~= Seq::empty());
    while k < more.len()
        invariant
            k <= more.len(),
            later == string_texts(more@),
            string_texts(all@) == errors_with(string_texts(errors@), later.take(k as int)),
        decreases more.len() - k,
    {
        assert(later.take(k + 1).drop_last() =~= later.take(k as int));
        assert(later.take(k + 1).last() == more@[k as int]@);
        record_error(&mut all, more[k].clone());
        k += 1;
    }
    assert(later.take(later.len() as int) =~= later);
    all
}

} // verus!
