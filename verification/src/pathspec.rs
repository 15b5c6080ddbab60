//! Path mapping across repository mount points, and pathspec matching.
//!
//! A pathspec given by the caller is relative to the root repository's
//! working directory. A changed path reported inside a nested repository is
//! rewritten by prefixing the repository's root-relative mount path before it
//! is matched. Matching itself is done by the pathspec engine of the
//! underlying version-control library, reached through one trusted wrapper.

use vstd::prelude::*;

verus! {

use crate::model::ChangedPath;

/// Whether the pathspec engine accepts this pattern list at all.
pub uninterp spec fn pathspec_ok(patterns: Seq<Seq<char>>) -> bool;

/// The answer of the pathspec engine for a pattern list and a repository-
/// relative path.
pub uninterp spec fn pathspec_accepts(patterns: Seq<Seq<char>>, path: Seq<char>) -> bool;

/// The character sequences of a pattern list.
pub open spec fn patterns_view(patterns: Seq<String>) -> Seq<Seq<char>> {
    patterns.map_values(|s: String| s@)
}

/// A path the matching engine takes without refusing it: non-empty, relative,
/// not reaching upward or starting at the current directory, and free of NUL
/// characters.
pub open spec fn valid_rel_path(p: Seq<char>) -> bool {
    &&& p.len() > 0
    &&& p[0] != '/'
    &&& p[0] != '\\'
    &&& !(p[0] == '.' && (p.len() == 1 || p[1] == '/' || p[1] == '\\'))
    &&& !(p.len() >= 2 && p[0] == '.' && p[1] == '.' && (p.len() == 2 || p[2] == '/' || p[2]
        == '\\'))
    &&& forall|i: int| 0 <= i < p.len() ==> p[i] != '\0'
}

/// Executable form of [`valid_rel_path`].
pub fn is_valid_rel_path(p: &str) -> (r: bool)
    ensures
        r == valid_rel_path(p@),
{
    let n = p.unicode_len();
    if n == 0 {
        return false;
    }
    let c0 = p.get_char(0);
    if c0 == '/' || c0 == '\\' {
        return false;
    }
    if c0 == '.' {
        if n == 1 {
            return false;
        }
        let c1 = p.get_char(1);
        if c1 == '/' || c1 == '\\' {
            return false;
        }
        if c1 == '.' {
            if n == 2 {
                return false;
            }
            let c2 = p.get_char(2);
            if c2 == '/' || c2 == '\\' {
                return false;
            }
        }
    }
    let mut i: usize = 0;
    while i < n
        invariant
            n == p@.len(),
            i <= n,
            forall|k: int| 0 <= k < i ==> p@[k] != '\0',
        decreases n - i,
    {
        if p.get_char(i) == '\0' {
            return false;
        }
        i = i + 1;
    }
    true
}

/// Relies on `git2::Pathspec::new` and `git2::Pathspec::matches_path`:
/// whether the compiled pathspec accepts a repository-relative path depends
/// on the pattern list and the path alone. `None` reports that the pattern
/// list itself was refused. The path precondition keeps out exactly the
/// inputs on which `matches_path` panics on a Unix target; a Windows build
/// of git2 additionally refuses a drive-prefix first component (`C:...`)
/// and rewrites `\` to `/` before matching, so this wrapper assumes a Unix
/// target.
#[verifier::external_body]
fn pathspec_query(patterns: &Vec<String>, path: &str) -> (r: Option<bool>)
    requires
        valid_rel_path(path@),
    ensures
        r is Some <==> pathspec_ok(patterns_view(patterns@)),
        r is Some ==> r->0 == pathspec_accepts(patterns_view(patterns@), path@),
{
    match git2::Pathspec::new(patterns.iter()) {
        Ok(ps) => Some(
            ps.matches_path(std::path::Path::new(path), git2::PathspecFlags::DEFAULT),
        ),
        Err(_) => None,
    }
}

/// Checks whether the engine accepts a pattern list, by compiling it once.
pub fn pathspec_usable(patterns: &Vec<String>) -> (r: bool)
    ensures
        r == pathspec_ok(patterns_view(patterns@)),
{
    proof {
        reveal_strlit("a");
    }
    pathspec_query(patterns, "a").is_some()
}

/// Asks the engine whether an accepted pattern list matches a valid
/// repository-relative path.
pub fn pathspec_matches(patterns: &Vec<String>, path: &str) -> (r: bool)
    requires
        pathspec_ok(patterns_view(patterns@)),
        valid_rel_path(path@),
    ensures
        r == pathspec_accepts(patterns_view(patterns@), path@),
{
    pathspec_query(patterns, path).unwrap()
}

/// A repository-relative path seen from the root: the mount path, a
/// separator, then the path — or the path itself at the root.
pub open spec fn spec_mounted_path(mount: Seq<char>, rel: Seq<char>) -> Seq<char> {
    if mount.len() == 0 {
        rel
    } else {
        mount + seq!['/'] + rel
    }
}

/// Executable form of [`spec_mounted_path`].
pub fn mounted_path(mount: &str, rel: &str) -> (r: String)
    ensures
        r@ == spec_mounted_path(mount@, rel@),
{
    if mount.unicode_len() == 0 {
        String::from_str(rel)
    } else {
        let mut s = String::from_str(mount);
        s.append("/");
        s.append(rel);
        proof {
            reveal_strlit("/");
            assert(s@ =~= mount@ + seq!['/'] + rel@);
        }
        s
    }
}

/// One changed path qualifies: its rewritten new path matches, or, for a
/// rename, its rewritten old path does.
pub open spec fn spec_delta_matches(
    patterns: Seq<Seq<char>>,
    mount: Seq<char>,
    d: ChangedPath,
) -> bool {
    pathspec_accepts(patterns, spec_mounted_path(mount, d.new_path@)) || (d.renamed
        && pathspec_accepts(patterns, spec_mounted_path(mount, d.old_path@)))
}

/// A commit qualifies iff the diff against at least one of its parents holds
/// at least one qualifying changed path. A commit without parents never
/// qualifies.
pub open spec fn spec_commit_matches(
    patterns: Seq<Seq<char>>,
    mount: Seq<char>,
    changes: Seq<Seq<ChangedPath>>,
) -> bool {
    exists|i: int, j: int|
        0 <= i < changes.len() && 0 <= j < changes[i].len() && spec_delta_matches(
            patterns,
            mount,
            #[trigger] changes[i][j],
        )
}

/// The changed paths of one commit, one sequence per parent.
pub open spec fn changes_view(changes: Seq<Vec<ChangedPath>>) -> Seq<Seq<ChangedPath>> {
    changes.map_values(|v: Vec<ChangedPath>| v@)
}

/// All rewritten paths of a change set are ones the engine takes.
pub open spec fn changes_paths_valid(mount: Seq<char>, changes: Seq<Seq<ChangedPath>>) -> bool {
    forall|i: int, j: int|
        0 <= i < changes.len() && 0 <= j < changes[i].len() ==> valid_rel_path(
            spec_mounted_path(mount, (#[trigger] changes[i][j]).new_path@),
        ) && ((changes[i][j]).renamed ==> valid_rel_path(
            spec_mounted_path(mount, (changes[i][j]).old_path@),
        ))
}

/// Decides whether one commit's changes, reported under the given mount
/// path, qualify against the pathspec.
pub fn commit_matches_pathspec(
    patterns: &Vec<String>,
    mount: &str,
    changes: &Vec<Vec<ChangedPath>>,
) -> (r: bool)
    requires
        pathspec_ok(patterns_view(patterns@)),
        changes_paths_valid(mount@, changes_view(changes@)),
    ensures
        r == spec_commit_matches(patterns_view(patterns@), mount@, changes_view(changes@)),
{
    let ghost pv = patterns_view(patterns@);
    let ghost cv = changes_view(changes@);
    let np = changes.len();
    let mut i: usize = 0;
    while i < np
        invariant
            pathspec_ok(pv),
            pv == patterns_view(patterns@),
            cv == changes_view(changes@),
            changes_paths_valid(mount@, cv),
            np == changes@.len(),
            i <= np,
            forall|a: int, b: int|
                0 <= a < i && 0 <= b < cv[a].len() ==> !spec_delta_matches(
                    pv,
                    mount@,
                    #[trigger] cv[a][b],
                ),
        decreases np - i,
    {
        let nd = changes[i].len();
        let mut j: usize = 0;
        while j < nd
            invariant
                pathspec_ok(pv),
                pv == patterns_view(patterns@),
                cv == changes_view(changes@),
                changes_paths_valid(mount@, cv),
                np == changes@.len(),
                i < np,
                nd == changes@[i as int]@.len(),
                j <= nd,
                forall|b: int|
                    0 <= b < j ==> !spec_delta_matches(pv, mount@, #[trigger] cv[i as int][b]),
                forall|a: int, b: int|
                    0 <= a < i && 0 <= b < cv[a].len() ==> !spec_delta_matches(
                        pv,
                        mount@,
                        #[trigger] cv[a][b],
                    ),
            decreases nd - j,
        {
            let d = &changes[i][j];
            proof {
                assert(cv[i as int][j as int] == changes@[i as int]@[j as int]);
            }
            let new_full = mounted_path(mount, d.new_path.as_str());
            let hit_new = pathspec_query(patterns, new_full.as_str()).unwrap();
            if hit_new {
                proof {
                    assert(spec_delta_matches(pv, mount@, cv[i as int][j as int]));
                }
                return true;
            }
            if d.renamed {
                let old_full = mounted_path(mount, d.old_path.as_str());
                let hit_old = pathspec_query(patterns, old_full.as_str()).unwrap();
                if hit_old {
                    proof {
                        assert(spec_delta_matches(pv, mount@, cv[i as int][j as int]));
                    }
                    return true;
                }
            }
            proof {
                assert(!spec_delta_matches(pv, mount@, cv[i as int][j as int]));
            }
            j = j + 1;
        }
        i = i + 1;
    }
    proof {
        assert(!spec_commit_matches(pv, mount@, cv));
    }
    false
}

} // verus!
