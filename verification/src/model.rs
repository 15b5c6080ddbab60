//! The plain-valued model of a repository forest.
//!
//! Repositories are rows of a table; commits of every repository live in one
//! flat commit table and name each other by table index. Commit ids are
//! opaque tokens: the caller assigns a distinct token per content-addressed
//! id. Trees and per-parent change lists are carried as data, so that every
//! rule that reads them can be checked.

use vstd::prelude::*;

verus! {

/// One changed path of a tree-level diff against one parent; for renames
/// both the old and the new path are meaningful.
#[derive(Clone, Debug)]
pub struct ChangedPath {
    pub old_path: String,
    pub new_path: String,
    pub renamed: bool,
}

/// One entry of a commit's tree: a plain file, a nested directory, or a
/// commit-link recording a pinned commit id inside another repository.
#[derive(Debug)]
pub enum TreeItem {
    Blob { name: String, id: u64 },
    Dir { name: String, items: Vec<TreeItem> },
    Link { name: String, id: u64 },
}

/// One commit: its repository (a row of the repository table), its id token,
/// committer timestamp, parents as commit-table indexes, author and
/// committer text, the author's timestamp, the message, the changed paths
/// against each parent, and its tree.
#[derive(Debug)]
pub struct CommitEntry {
    pub repo: usize,
    pub id: u64,
    pub time: i64,
    pub parents: Vec<usize>,
    pub author: String,
    pub committer: String,
    pub author_time: i64,
    pub message: String,
    pub changes: Vec<Vec<ChangedPath>>,
    pub tree: Vec<TreeItem>,
}

/// A submodule registration of one repository: the repository-relative path
/// of the mount point and the child's row in the repository table.
#[derive(Clone, Debug)]
pub struct SubmoduleRef {
    pub path: String,
    pub repo: usize,
}

/// One entry of a repository's index: its path, blob or link id token, and
/// raw file mode.
#[derive(Clone, Debug)]
pub struct IndexItem {
    pub path: String,
    pub id: u64,
    pub mode: u32,
}

/// One repository of the forest: its root-relative mount path (empty for the
/// root itself), its checked-out head and branch tips (commit-table
/// indexes), its registered submodules, and its index entries.
#[derive(Clone, Debug)]
pub struct RepoInfo {
    pub mount: String,
    pub head: usize,
    pub branches: Vec<usize>,
    pub submodules: Vec<SubmoduleRef>,
    pub index: Vec<IndexItem>,
}

/// The failures of the underlying version-control operations and of the
/// caller-supplied filter expressions.
#[derive(Clone, Copy, PartialEq, Eq, Structural, Debug)]
pub enum Error {
    NotARepository,
    SubmoduleUnavailable,
    UnknownRevision,
    InvalidPathspec,
    InvalidRegex,
}

} // verus!
