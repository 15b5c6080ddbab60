//! Presentation decisions: which age bucket a commit's duration falls in,
//! the two-character code of a status entry, and the one-letter label of a
//! change kind. The texts themselves are assembled by the caller; these
//! functions fix the choice.

use vstd::prelude::*;

verus! {

use crate::filter::StatusFlags;

/// The colour a label is shown in.
#[derive(Clone, Copy, PartialEq, Eq, Structural, Debug)]
pub enum LabelColor {
    Green,
    Red,
    Plain,
}

/// The age bucket of a duration.
#[derive(Clone, Copy, PartialEq, Eq, Structural, Debug)]
pub enum DurationUnit {
    Months,
    Days,
    Hours,
    Minutes,
    Seconds,
    JustNow,
}

/// The age bucket of a duration in seconds, with its count: months (of
/// thirty days) once more than thirty days have passed, else whole days,
/// hours, minutes or seconds, and the moment itself for zero or a negative
/// duration.
pub open spec fn spec_duration_bucket(secs: i64) -> (DurationUnit, i64) {
    if secs <= 0 {
        (DurationUnit::JustNow, 0)
    } else {
        let days = secs as int / 86400;
        if days > 30 {
            (DurationUnit::Months, (days / 30) as i64)
        } else if days > 0 {
            (DurationUnit::Days, days as i64)
        } else {
            let hours = secs as int / 3600;
            if hours > 0 {
                (DurationUnit::Hours, hours as i64)
            } else {
                let mins = secs as int / 60;
                if mins > 0 {
                    (DurationUnit::Minutes, mins as i64)
                } else {
                    (DurationUnit::Seconds, secs)
                }
            }
        }
    }
}

/// Executable form of [`spec_duration_bucket`].
pub fn duration_bucket(secs: i64) -> (r: (DurationUnit, i64))
    ensures
        r == spec_duration_bucket(secs),
{
    if secs <= 0 {
        (DurationUnit::JustNow, 0)
    } else {
        let days = secs / 86400;
        if days > 30 {
            (DurationUnit::Months, days / 30)
        } else if days > 0 {
            (DurationUnit::Days, days)
        } else {
            let hours = secs / 3600;
            if hours > 0 {
                (DurationUnit::Hours, hours)
            } else {
                let mins = secs / 60;
                if mins > 0 {
                    (DurationUnit::Minutes, mins)
                } else {
                    (DurationUnit::Seconds, secs)
                }
            }
        }
    }
}

/// The two-character status code and its colour: the staged kinds first, in
/// the fixed order, then the worktree kinds, then the ignored mark, with an
/// unknown entry shown as untracked.
pub open spec fn spec_status_code(f: StatusFlags) -> (Seq<char>, LabelColor) {
    if f.index_new {
        ("A "@, LabelColor::Green)
    } else if f.index_modified {
        ("M "@, LabelColor::Green)
    } else if f.index_deleted {
        ("D "@, LabelColor::Green)
    } else if f.index_renamed {
        ("R "@, LabelColor::Green)
    } else if f.index_typechange {
        ("T "@, LabelColor::Green)
    } else if f.wt_new {
        ("??"@, LabelColor::Red)
    } else if f.wt_modified {
        (" M"@, LabelColor::Red)
    } else if f.wt_deleted {
        (" D"@, LabelColor::Red)
    } else if f.wt_typechange {
        (" T"@, LabelColor::Red)
    } else if f.wt_renamed {
        (" R"@, LabelColor::Red)
    } else if f.ignored {
        ("!!"@, LabelColor::Red)
    } else {
        ("??"@, LabelColor::Red)
    }
}

/// Executable form of [`spec_status_code`].
pub fn status_code(f: &StatusFlags) -> (r: (String, LabelColor))
    ensures
        (r.0@, r.1) == spec_status_code(*f),
{
    if f.index_new {
        (String::from_str("A "), LabelColor::Green)
    } else if f.index_modified {
        (String::from_str("M "), LabelColor::Green)
    } else if f.index_deleted {
        (String::from_str("D "), LabelColor::Green)
    } else if f.index_renamed {
        (String::from_str("R "), LabelColor::Green)
    } else if f.index_typechange {
        (String::from_str("T "), LabelColor::Green)
    } else if f.wt_new {
        (String::from_str("??"), LabelColor::Red)
    } else if f.wt_modified {
        (String::from_str(" M"), LabelColor::Red)
    } else if f.wt_deleted {
        (String::from_str(" D"), LabelColor::Red)
    } else if f.wt_typechange {
        (String::from_str(" T"), LabelColor::Red)
    } else if f.wt_renamed {
        (String::from_str(" R"), LabelColor::Red)
    } else if f.ignored {
        (String::from_str("!!"), LabelColor::Red)
    } else {
        (String::from_str("??"), LabelColor::Red)
    }
}

/// The kind of one change of a commit's diff.
#[derive(Clone, Copy, PartialEq, Eq, Structural, Debug)]
pub enum DeltaKind {
    Added,
    Conflicted,
    Copied,
    Deleted,
    Ignored,
    Modified,
    Renamed,
    Typechange,
    Unmodified,
    Unreadable,
    Untracked,
}

/// The one-letter label of a change kind and its colour.
pub open spec fn spec_delta_label(k: DeltaKind) -> (Seq<char>, LabelColor) {
    match k {
        DeltaKind::Added => ("A"@, LabelColor::Green),
        DeltaKind::Conflicted => ("C"@, LabelColor::Red),
        DeltaKind::Copied => ("C"@, LabelColor::Green),
        DeltaKind::Deleted => ("D"@, LabelColor::Red),
        DeltaKind::Ignored => ("I"@, LabelColor::Red),
        DeltaKind::Modified => ("M"@, LabelColor::Red),
        DeltaKind::Renamed => ("R"@, LabelColor::Green),
        DeltaKind::Typechange => ("T"@, LabelColor::Green),
        DeltaKind::Unmodified => ("U"@, LabelColor::Green),
        DeltaKind::Unreadable => ("U"@, LabelColor::Red),
        DeltaKind::Untracked => ("U"@, LabelColor::Plain),
    }
}

/// Executable form of [`spec_delta_label`].
pub fn delta_label(k: &DeltaKind) -> (r: (String, LabelColor))
    ensures
        (r.0@, r.1) == spec_delta_label(*k),
{
    match k {
        DeltaKind::Added => (String::from_str("A"), LabelColor::Green),
        DeltaKind::Conflicted => (String::from_str("C"), LabelColor::Red),
        DeltaKind::Copied => (String::from_str("C"), LabelColor::Green),
        DeltaKind::Deleted => (String::from_str("D"), LabelColor::Red),
        DeltaKind::Ignored => (String::from_str("I"), LabelColor::Red),
        DeltaKind::Modified => (String::from_str("M"), LabelColor::Red),
        DeltaKind::Renamed => (String::from_str("R"), LabelColor::Green),
        DeltaKind::Typechange => (String::from_str("T"), LabelColor::Green),
        DeltaKind::Unmodified => (String::from_str("U"), LabelColor::Green),
        DeltaKind::Unreadable => (String::from_str("U"), LabelColor::Red),
        DeltaKind::Untracked => (String::from_str("U"), LabelColor::Plain),
    }
}

} // verus!
