//! When values were written, and which of two times is the later one.

use vstd::prelude::*;

verus! {

/// A point in time: nanoseconds from the Unix epoch, negative before it.
pub type Time = i128;

/// When a file's content was last written, and when it came to be.
#[derive(Clone, Copy, Debug, PartialEq, Eq, Structural)]
pub struct VersionStamp {
    pub modified: Time,
    pub created: Time,
}

impl VersionStamp {
    /// The stamp of a value that was written once, at the given time.
    pub open spec fn of(time: Time) -> Self {
        VersionStamp { modified: time, created: time }
    }

    /// The stamp of a value that was written once, at the given time.
    pub fn at(time: Time) -> (stamp: Self)
        ensures
            stamp == VersionStamp::of(time),
    {
        VersionStamp { modified: time, created: time }
    }
}

/// The later of two times.
pub open spec fn later_time(current: Option<Time>, candidate: Time) -> Time {
    match current {
        Some(current) if current >= candidate => current,
        _ => candidate,
    }
}

/// The stamp that was modified later; the current one where both were modified at
/// the same time.
pub open spec fn later_stamp(
    current: Option<VersionStamp>,
    candidate: VersionStamp,
) -> VersionStamp {
    match current {
        Some(current) if current.modified >= candidate.modified => current,
        _ => candidate,
    }
}

/// The later of two times is one of them and not before either, and among several it does
/// not matter in which order they come. Of two stamps the later one is taken whole, and
/// the current one stays where neither is later.
pub proof fn law_later_is_the_latest(
    a: Time,
    b: Time,
    c: Time,
    current: VersionStamp,
    candidate: VersionStamp,
)
    ensures
        later_time(Some(a), b) == a || later_time(Some(a), b) == b,
        later_time(Some(a), b) >= a && later_time(Some(a), b) >= b,
        later_time(Some(a), b) == later_time(Some(b), a),
        later_time(Some(later_time(Some(a), b)), c) == later_time(
            Some(a),
            later_time(Some(b), c),
        ),
        later_stamp(Some(current), candidate).modified == later_time(
            Some(current.modified),
            candidate.modified,
        ),
        later_stamp(Some(current), candidate) == candidate <==> (candidate == current
            || candidate.modified > current.modified),
        later_stamp(Some(current), candidate) == current <==> (candidate == current
            || candidate.modified <= current.modified),
{
}

/// The later of two times.
pub fn max_system_time(current: Option<Time>, candidate: Time) -> (latest: Time)
    ensures
        latest == later_time(current, candidate),
{
    match current {
        Some(current) => if current >= candidate {
            current
        } else {
            candidate
        },
        None => candidate,
    }
}

/// The stamp that was modified later.
pub fn max_version_stamp(current: Option<VersionStamp>, candidate: VersionStamp) -> (latest:
    VersionStamp)
    ensures
        latest == later_stamp(current, candidate),
{
    match current {
        Some(current) => if current.modified >= candidate.modified {
            current
        } else {
            candidate
        },
        None => candidate,
    }
}

} // verus!
