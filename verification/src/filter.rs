//! Diff classification and filtering.
//!
//! Every raw change is mapped to exactly one of six categories using a fixed
//! priority order, and a [`DiffFilter`] decides which categories are kept.

use vstd::prelude::*;

verus! {

/// The raw flag set reported for one status entry, as plain booleans.
///
/// The first five pairs describe staged (index) and unstaged (worktree)
/// variants of the same change kind; `ignored` marks entries that only appear
/// when ignored files are requested.
#[derive(Clone, Copy, PartialEq, Eq, Structural, Debug)]
pub struct StatusFlags {
    pub index_new: bool,
    pub index_modified: bool,
    pub index_deleted: bool,
    pub index_renamed: bool,
    pub index_typechange: bool,
    pub wt_new: bool,
    pub wt_modified: bool,
    pub wt_deleted: bool,
    pub wt_renamed: bool,
    pub wt_typechange: bool,
    pub ignored: bool,
}

impl StatusFlags {
    /// A flag set with every flag cleared.
    pub fn clear() -> (r: StatusFlags)
        ensures
            r == (StatusFlags {
                index_new: false,
                index_modified: false,
                index_deleted: false,
                index_renamed: false,
                index_typechange: false,
                wt_new: false,
                wt_modified: false,
                wt_deleted: false,
                wt_renamed: false,
                wt_typechange: false,
                ignored: false,
            }),
    {
        StatusFlags {
            index_new: false,
            index_modified: false,
            index_deleted: false,
            index_renamed: false,
            index_typechange: false,
            wt_new: false,
            wt_modified: false,
            wt_deleted: false,
            wt_renamed: false,
            wt_typechange: false,
            ignored: false,
        }
    }
}

/// The six change categories.
#[derive(Clone, Copy, PartialEq, Eq, Structural, Debug)]
pub enum Category {
    Added,
    Deleted,
    Modified,
    Renamed,
    TypeChanged,
    Unknown,
}

/// The category of a flag set: the first matching predicate wins, in the
/// fixed priority order Added, Modified, Deleted, Renamed, TypeChanged,
/// Unknown.
pub open spec fn classify(f: StatusFlags) -> Category {
    if f.index_new || f.wt_new {
        Category::Added
    } else if f.index_modified || f.wt_modified {
        Category::Modified
    } else if f.index_deleted || f.wt_deleted {
        Category::Deleted
    } else if f.index_renamed || f.wt_renamed {
        Category::Renamed
    } else if f.index_typechange || f.wt_typechange {
        Category::TypeChanged
    } else {
        Category::Unknown
    }
}

/// True iff the flag set records a staged (index-side) change.
pub open spec fn spec_is_staged(f: StatusFlags) -> bool {
    f.index_new || f.index_modified || f.index_deleted || f.index_renamed || f.index_typechange
}

/// Executable form of [`spec_is_staged`].
pub fn is_staged(f: &StatusFlags) -> (r: bool)
    ensures
        r == spec_is_staged(*f),
{
    f.index_new || f.index_modified || f.index_deleted || f.index_renamed || f.index_typechange
}

/// Six independent switches, one per [`Category`].
#[derive(Clone, Copy, PartialEq, Eq, Structural, Debug)]
pub struct DiffFilter {
    pub add: bool,
    pub deleted: bool,
    pub modified: bool,
    pub rename: bool,
    pub type_changed: bool,
    pub unknown: bool,
}

/// The filter with every category disabled: the starting point of
/// pattern-based construction.
pub open spec fn empty_filter() -> DiffFilter {
    DiffFilter {
        add: false,
        deleted: false,
        modified: false,
        rename: false,
        type_changed: false,
        unknown: false,
    }
}

/// One step of pattern-based construction: an uppercase letter of
/// `{A,D,M,R,T,U}` enables its category, the lowercase letter disables it,
/// and any other character leaves the filter unchanged.
pub open spec fn apply_pattern_char(f: DiffFilter, c: char) -> DiffFilter {
    if c == 'a' || c == 'A' {
        DiffFilter { add: c == 'A', ..f }
    } else if c == 'd' || c == 'D' {
        DiffFilter { deleted: c == 'D', ..f }
    } else if c == 'm' || c == 'M' {
        DiffFilter { modified: c == 'M', ..f }
    } else if c == 'r' || c == 'R' {
        DiffFilter { rename: c == 'R', ..f }
    } else if c == 't' || c == 'T' {
        DiffFilter { type_changed: c == 'T', ..f }
    } else if c == 'u' || c == 'U' {
        DiffFilter { unknown: c == 'U', ..f }
    } else {
        f
    }
}

/// The filter that a whole pattern builds, starting from [`empty_filter`]
/// and applying its characters left to right.
pub open spec fn filter_of_pattern(s: Seq<char>) -> DiffFilter
    decreases s.len(),
{
    if s.len() == 0 {
        empty_filter()
    } else {
        apply_pattern_char(filter_of_pattern(s.drop_last()), s.last())
    }
}

impl DiffFilter {
    /// The permissive default: all six categories enabled.
    pub fn default() -> (r: DiffFilter)
        ensures
            r == (DiffFilter {
                add: true,
                deleted: true,
                modified: true,
                rename: true,
                type_changed: true,
                unknown: true,
            }),
    {
        DiffFilter {
            add: true,
            deleted: true,
            modified: true,
            rename: true,
            type_changed: true,
            unknown: true,
        }
    }

    /// Builds a filter from a pattern string: all categories start disabled;
    /// each uppercase letter of `{A,D,M,R,T,U}` enables its category and each
    /// lowercase occurrence disables it again.
    pub fn from(s: &str) -> (r: DiffFilter)
        ensures
            r == filter_of_pattern(s@),
    {
        let mut me = DiffFilter {
            add: false,
            deleted: false,
            modified: false,
            rename: false,
            type_changed: false,
            unknown: false,
        };
        let n = s.unicode_len();
        let mut i: usize = 0;
        while i < n
            invariant
                n == s@.len(),
                i <= n,
                me == filter_of_pattern(s@.subrange(0, i as int)),
            decreases n - i,
        {
            let c = s.get_char(i);
            if c == 'a' || c == 'A' {
                me.add = c == 'A';
            } else if c == 'd' || c == 'D' {
                me.deleted = c == 'D';
            } else if c == 'm' || c == 'M' {
                me.modified = c == 'M';
            } else if c == 'r' || c == 'R' {
                me.rename = c == 'R';
            } else if c == 't' || c == 'T' {
                me.type_changed = c == 'T';
            } else if c == 'u' || c == 'U' {
                me.unknown = c == 'U';
            }
            proof {
                assert(s@.subrange(0, i + 1 as int).drop_last() =~= s@.subrange(0, i as int));
                assert(s@.subrange(0, i + 1 as int).last() == s@[i as int]);
            }
            i = i + 1;
        }
        proof {
            assert(s@.subrange(0, n as int) =~= s@);
        }
        me
    }

    /// True iff this filter keeps changes of the given category.
    pub open spec fn allows(self, c: Category) -> bool {
        match c {
            Category::Added => self.add,
            Category::Deleted => self.deleted,
            Category::Modified => self.modified,
            Category::Renamed => self.rename,
            Category::TypeChanged => self.type_changed,
            Category::Unknown => self.unknown,
        }
    }

    /// Decides whether a raw flag set passes the filter: the flags are
    /// classified by the fixed priority order and the matching switch is
    /// consulted.
    pub fn test(&self, status: &StatusFlags) -> (r: bool)
        ensures
            r == self.allows(classify(*status)),
    {
        if status.index_new || status.wt_new {
            self.add
        } else if status.index_modified || status.wt_modified {
            self.modified
        } else if status.index_deleted || status.wt_deleted {
            self.deleted
        } else if status.index_renamed || status.wt_renamed {
            self.rename
        } else if status.index_typechange || status.wt_typechange {
            self.type_changed
        } else {
            self.unknown
        }
    }
}

} // verus!
