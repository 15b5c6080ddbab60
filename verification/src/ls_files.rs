//! Recursive file listing across the repository forest.
//!
//! Listing a revision walks its tree and descends through every commit-link
//! into the pinned commit of the child repository. Each descent carries two
//! independent relative paths: one relative to the root — reported, and
//! matched against the pathspec — and one relative to the current repository
//! — used to resolve the next submodule; they diverge at each mount point.
//! Listing the index reports each index entry, descending through gitlink
//! entries into the linked commit's tree.

use vstd::prelude::*;

verus! {

use crate::forest::{find_commit, find_submodule, spec_find_commit, spec_find_submodule};
use crate::model::{CommitEntry, Error, IndexItem, RepoInfo, TreeItem};
use crate::pathspec::{
    mounted_path, pathspec_ok, patterns_view, spec_mounted_path, valid_rel_path,
};

/// One listed file: its root-relative path and its blob id token.
#[derive(Debug)]
pub struct ListedFile {
    pub path: String,
    pub id: u64,
}

/// The mathematical picture of a listed file.
pub ghost struct ListedFileV {
    pub path: Seq<char>,
    pub id: u64,
}

impl View for ListedFile {
    type V = ListedFileV;

    open spec fn view(&self) -> ListedFileV {
        ListedFileV { path: self.path@, id: self.id }
    }
}

/// The views of a vector of listed files.
pub open spec fn files_view(files: Seq<ListedFile>) -> Seq<ListedFileV> {
    files.map_values(|f: ListedFile| f@)
}

/// The pattern views of an optional pathspec.
pub open spec fn opt_patterns_view(pats: Option<Vec<String>>) -> Option<Seq<Seq<char>>> {
    match pats {
        Some(ps) => Some(patterns_view(ps@)),
        None => None,
    }
}

/// A name a tree entry can carry: one non-empty path component, free of
/// separators and NUL, and neither of the two special directory names.
pub open spec fn good_name(n: Seq<char>) -> bool {
    &&& n.len() > 0
    &&& forall|i: int| 0 <= i < n.len() ==> n[i] != '/' && n[i] != '\\' && n[i] != '\0'
    &&& !(n.len() == 1 && n[0] == '.')
    &&& !(n.len() == 2 && n[0] == '.' && n[1] == '.')
}

/// Every entry name in one tree entry's subtree is a good component.
pub open spec fn item_names_ok(item: TreeItem) -> bool
    decreases item, 0int,
{
    match item {
        TreeItem::Blob { name, .. } => good_name(name@),
        TreeItem::Link { name, .. } => good_name(name@),
        TreeItem::Dir { name, items } => good_name(name@) && items_names_ok(items@, 0),
    }
}

/// Every entry name in the subtrees of `items[i..]` is a good component.
pub open spec fn items_names_ok(items: Seq<TreeItem>, i: int) -> bool
    decreases items, items.len() - i + 1int,
{
    if 0 <= i < items.len() {
        item_names_ok(items[i]) && items_names_ok(items, i + 1)
    } else {
        true
    }
}

/// Joining a good component onto an empty or valid relative path gives a
/// valid relative path.
pub proof fn lemma_join_valid(prefix: Seq<char>, name: Seq<char>)
    requires
        prefix.len() == 0 || valid_rel_path(prefix),
        good_name(name),
    ensures
        valid_rel_path(spec_mounted_path(prefix, name)),
{
    let p = spec_mounted_path(prefix, name);
    if prefix.len() == 0 {
        assert(p == name);
    } else {
        assert(p.len() == prefix.len() + 1 + name.len());
        assert(p[0] == prefix[0]);
        if prefix.len() >= 2 {
            assert(p[1] == prefix[1]);
        } else {
            assert(p[1] == '/');
        }
        if prefix.len() >= 3 {
            assert(p[2] == prefix[2]);
        }
        if prefix.len() == 2 {
            assert(p[2] == '/');
        }
        assert forall|i: int| 0 <= i < p.len() implies p[i] != '\0' by {
            if i < prefix.len() {
                assert(p[i] == prefix[i]);
            } else if i == prefix.len() {
                assert(p[i] == '/');
            } else {
                assert(p[i] == name[i - prefix.len() - 1]);
            }
        }
    }
}

/// The listing of one tree entry, seen from `root_rel` (root-relative) and
/// `repo_rel` (repository-relative). A plain file is reported under its
/// root-relative path unless the pathspec rejects it. A directory is walked
/// under both extended paths. A commit-link resolves its repository-relative
/// path to a child repository and its id to the pinned commit, whose tree is
/// walked with the root-relative path carried on and a fresh
/// repository-relative path.
pub open spec fn spec_list_item(
    t: Seq<CommitEntry>,
    repos: Seq<RepoInfo>,
    repo: usize,
    item: TreeItem,
    root_rel: Seq<char>,
    repo_rel: Seq<char>,
    pats: Option<Seq<Seq<char>>>,
    fuel: nat,
) -> Result<Seq<ListedFileV>, Error>
    decreases fuel, item, 0int,
{
    match item {
        TreeItem::Blob { name, id } => {
            let p = spec_mounted_path(root_rel, name@);
            if match pats {
                Some(ps) => crate::pathspec::pathspec_accepts(ps, p),
                None => true,
            } {
                Ok(seq![ListedFileV { path: p, id }])
            } else {
                Ok(Seq::empty())
            }
        },
        TreeItem::Dir { name, items } => spec_list_items(
            t,
            repos,
            repo,
            items@,
            spec_mounted_path(root_rel, name@),
            spec_mounted_path(repo_rel, name@),
            pats,
            fuel,
            0,
        ),
        TreeItem::Link { name, id } => {
            let sub_name = spec_mounted_path(root_rel, name@);
            let sub_base = spec_mounted_path(repo_rel, name@);
            match spec_find_submodule(repos[repo as int].submodules@, sub_base) {
                None => Err(Error::SubmoduleUnavailable),
                Some(rc) => match spec_find_commit(t, rc, id) {
                    None => Err(Error::UnknownRevision),
                    Some(ci) => if fuel == 0 {
                        Err(Error::SubmoduleUnavailable)
                    } else {
                        spec_list_items(
                            t,
                            repos,
                            rc,
                            t[ci as int].tree@,
                            sub_name,
                            Seq::empty(),
                            pats,
                            (fuel - 1) as nat,
                            0,
                        )
                    },
                },
            }
        },
    }
}

/// The listing of the tree entries `items[i..]`, in tree order.
pub open spec fn spec_list_items(
    t: Seq<CommitEntry>,
    repos: Seq<RepoInfo>,
    repo: usize,
    items: Seq<TreeItem>,
    root_rel: Seq<char>,
    repo_rel: Seq<char>,
    pats: Option<Seq<Seq<char>>>,
    fuel: nat,
    i: int,
) -> Result<Seq<ListedFileV>, Error>
    decreases fuel, items, items.len() - i + 1int,
{
    if 0 <= i < items.len() {
        match spec_list_item(t, repos, repo, items[i], root_rel, repo_rel, pats, fuel) {
            Err(e) => Err(e),
            Ok(own) => match spec_list_items(
                t,
                repos,
                repo,
                items,
                root_rel,
                repo_rel,
                pats,
                fuel,
                i + 1,
            ) {
                Err(e) => Err(e),
                Ok(rest) => Ok(own + rest),
            },
        }
    } else {
        Ok(Seq::empty())
    }
}

/// Walks the given tree entries and appends every listed file to `out`, in
/// tree order, resolving commit-links across repositories.
pub fn list_tree_files(
    table: &Vec<CommitEntry>,
    repos: &Vec<RepoInfo>,
    repo: usize,
    items: &Vec<TreeItem>,
    root_rel: &str,
    repo_rel: &str,
    pats: &Option<Vec<String>>,
    fuel: usize,
    out: &mut Vec<ListedFile>,
) -> (r: Result<(), Error>)
    requires
        repo < repos@.len(),
        forall|c: int| 0 <= c < table@.len() ==> (#[trigger] table@[c].repo) < repos@.len(),
        forall|c: int| 0 <= c < table@.len() ==> items_names_ok(#[trigger] table@[c].tree@, 0),
        items_names_ok(items@, 0),
        root_rel@.len() == 0 || valid_rel_path(root_rel@),
        pats matches Some(ps) ==> pathspec_ok(patterns_view(ps@)),
    ensures
        match r {
            Ok(()) => spec_list_items(
                table@,
                repos@,
                repo,
                items@,
                root_rel@,
                repo_rel@,
                opt_patterns_view(*pats),
                fuel as nat,
                0,
            ) matches Ok(v) && files_view(final(out)@) == files_view(old(out)@) + v,
            Err(e) => spec_list_items(
                table@,
                repos@,
                repo,
                items@,
                root_rel@,
                repo_rel@,
                opt_patterns_view(*pats),
                fuel as nat,
                0,
            ) == Err::<Seq<ListedFileV>, Error>(e),
        },
    decreases fuel, items@,
{
    let ghost pv = opt_patterns_view(*pats);
    let ghost basev = files_view(out@);
    let ghost bl = basev.len() as int;
    let n = items.len();
    let mut i: usize = 0;
    while i < n
        invariant
            repo < repos@.len(),
            forall|c: int| 0 <= c < table@.len() ==> (#[trigger] table@[c].repo) < repos@.len(),
            forall|c: int|
                0 <= c < table@.len() ==> items_names_ok(#[trigger] table@[c].tree@, 0),
            items_names_ok(items@, i as int),
            root_rel@.len() == 0 || valid_rel_path(root_rel@),
            pats matches Some(ps) ==> pathspec_ok(patterns_view(ps@)),
            pv == opt_patterns_view(*pats),
            basev == files_view(old(out)@),
            bl == basev.len() as int,
            n == items@.len(),
            i <= n,
            files_view(out@).len() >= bl,
            files_view(out@).subrange(0, bl) == basev,
            ({
                let full = spec_list_items(
                    table@,
                    repos@,
                    repo,
                    items@,
                    root_rel@,
                    repo_rel@,
                    pv,
                    fuel as nat,
                    0,
                );
                let tail = spec_list_items(
                    table@,
                    repos@,
                    repo,
                    items@,
                    root_rel@,
                    repo_rel@,
                    pv,
                    fuel as nat,
                    i as int,
                );
                match tail {
                    Ok(rest) => full == Ok::<Seq<ListedFileV>, Error>(
                        files_view(out@).skip(bl) + rest,
                    ),
                    Err(e) => full == Err::<Seq<ListedFileV>, Error>(e),
                }
            }),
        decreases n - i,
    {
        let ghost entryv = files_view(out@);
        proof {
            reveal_strlit("");
            assert(""@ =~= Seq::<char>::empty());
            assert(item_names_ok(items@[i as int]));
        }
        match &items[i] {
            TreeItem::Blob { name, id } => {
                let p = mounted_path(root_rel, name.as_str());
                proof {
                    lemma_join_valid(root_rel@, name@);
                }
                let keep = match pats {
                    Some(ps) => crate::pathspec::pathspec_matches(ps, p.as_str()),
                    None => true,
                };
                if keep {
                    out.push(ListedFile { path: p, id: *id });
                    proof {
                        assert(files_view(out@) =~= entryv.push(
                            ListedFileV {
                                path: spec_mounted_path(root_rel@, name@),
                                id: *id,
                            },
                        ));
                    }
                }
            },
            TreeItem::Dir { name, items: sub } => {
                let sub_root = mounted_path(root_rel, name.as_str());
                let sub_repo_rel = mounted_path(repo_rel, name.as_str());
                proof {
                    lemma_join_valid(root_rel@, name@);
                }
                match list_tree_files(
                    table,
                    repos,
                    repo,
                    sub,
                    sub_root.as_str(),
                    sub_repo_rel.as_str(),
                    pats,
                    fuel,
                    out,
                ) {
                    Ok(()) => {},
                    Err(e) => {
                        return Err(e);
                    },
                }
            },
            TreeItem::Link { name, id } => {
                let sub_name = mounted_path(root_rel, name.as_str());
                let sub_base = mounted_path(repo_rel, name.as_str());
                proof {
                    lemma_join_valid(root_rel@, name@);
                }
                let rc = match find_submodule(&repos[repo].submodules, &sub_base) {
                    Some(rc) => rc,
                    None => {
                        return Err(Error::SubmoduleUnavailable);
                    },
                };
                let ci = match find_commit(table, rc, *id) {
                    Some(ci) => ci,
                    None => {
                        return Err(Error::UnknownRevision);
                    },
                };
                if fuel == 0 {
                    return Err(Error::SubmoduleUnavailable);
                }
                proof {
                    assert(table@[ci as int].repo == rc);
                    assert(rc < repos@.len());
                    assert(items_names_ok(table@[ci as int].tree@, 0));
                }
                match list_tree_files(
                    table,
                    repos,
                    rc,
                    &table[ci].tree,
                    sub_name.as_str(),
                    "",
                    pats,
                    fuel - 1,
                    out,
                ) {
                    Ok(()) => {},
                    Err(e) => {
                        return Err(e);
                    },
                }
            },
        }
        proof {
            let own = spec_list_item(
                table@,
                repos@,
                repo,
                items@[i as int],
                root_rel@,
                repo_rel@,
                pv,
                fuel as nat,
            )->Ok_0;
            assert(files_view(out@) =~= entryv + own);
            assert(files_view(out@).subrange(0, bl) =~= entryv.subrange(0, bl));
            assert(files_view(out@).skip(bl) =~= entryv.skip(bl) + own);
            let tail_next = spec_list_items(
                table@,
                repos@,
                repo,
                items@,
                root_rel@,
                repo_rel@,
                pv,
                fuel as nat,
                i + 1int,
            );
            match tail_next {
                Ok(rest) => {
                    assert(entryv.skip(bl) + (own + rest) =~= files_view(out@).skip(bl)
                        + rest);
                },
                Err(e) => {},
            }
        }
        i = i + 1;
    }
    proof {
        assert(spec_list_items(
            table@,
            repos@,
            repo,
            items@,
            root_rel@,
            repo_rel@,
            pv,
            fuel as nat,
            n as int,
        ) == Ok::<Seq<ListedFileV>, Error>(Seq::empty()));
        assert(files_view(out@).skip(bl) + Seq::<ListedFileV>::empty() =~= files_view(
            out@,
        ).skip(bl));
        assert(files_view(out@) =~= basev + files_view(out@).skip(bl));
    }
    Ok(())
}

/// The listing of the index entries `entries[i..]`: a gitlink entry — file
/// mode of the commit-link kind — descends into the pinned commit of the
/// registered child repository, reporting its files relative to that
/// repository; any other entry is reported under its path unless the
/// pathspec rejects that path.
pub open spec fn spec_list_index(
    t: Seq<CommitEntry>,
    repos: Seq<RepoInfo>,
    repo: usize,
    entries: Seq<IndexItem>,
    pats: Option<Seq<Seq<char>>>,
    fuel: nat,
    i: int,
) -> Result<Seq<ListedFileV>, Error>
    decreases fuel, entries.len() - i,
{
    if 0 <= i < entries.len() {
        let own: Result<Seq<ListedFileV>, Error> = if entries[i].mode >> 12u32 == 14u32 {
            match spec_find_submodule(repos[repo as int].submodules@, entries[i].path@) {
                None => Err(Error::SubmoduleUnavailable),
                Some(rc) => match spec_find_commit(t, rc, entries[i].id) {
                    None => Err(Error::UnknownRevision),
                    Some(ci) => if fuel == 0 {
                        Err(Error::SubmoduleUnavailable)
                    } else {
                        spec_list_items(
                            t,
                            repos,
                            rc,
                            t[ci as int].tree@,
                            Seq::empty(),
                            Seq::empty(),
                            pats,
                            (fuel - 1) as nat,
                            0,
                        )
                    },
                },
            }
        } else {
            if match pats {
                Some(ps) => crate::pathspec::pathspec_accepts(ps, entries[i].path@),
                None => true,
            } {
                Ok(seq![ListedFileV { path: entries[i].path@, id: entries[i].id }])
            } else {
                Ok(Seq::empty())
            }
        };
        match own {
            Err(e) => Err(e),
            Ok(o) => match spec_list_index(t, repos, repo, entries, pats, fuel, i + 1) {
                Err(e) => Err(e),
                Ok(rest) => Ok(o + rest),
            },
        }
    } else {
        Ok(Seq::empty())
    }
}

/// Lists one repository's index, descending through gitlink entries into
/// the pinned commits of its submodules.
pub fn list_index_files(
    table: &Vec<CommitEntry>,
    repos: &Vec<RepoInfo>,
    repo: usize,
    pats: &Option<Vec<String>>,
    fuel: usize,
    out: &mut Vec<ListedFile>,
) -> (r: Result<(), Error>)
    requires
        repo < repos@.len(),
        forall|c: int| 0 <= c < table@.len() ==> (#[trigger] table@[c].repo) < repos@.len(),
        forall|c: int| 0 <= c < table@.len() ==> items_names_ok(#[trigger] table@[c].tree@, 0),
        pats matches Some(ps) ==> pathspec_ok(patterns_view(ps@)),
        pats is Some ==> forall|k: int|
            0 <= k < repos@[repo as int].index@.len() ==> ((#[trigger] repos@[
                repo as int].index@[k]).mode >> 12u32 != 14u32 ==> valid_rel_path(
                repos@[repo as int].index@[k].path@,
            )),
    ensures
        match r {
            Ok(()) => spec_list_index(
                table@,
                repos@,
                repo,
                repos@[repo as int].index@,
                opt_patterns_view(*pats),
                fuel as nat,
                0,
            ) matches Ok(v) && files_view(final(out)@) == files_view(old(out)@) + v,
            Err(e) => spec_list_index(
                table@,
                repos@,
                repo,
                repos@[repo as int].index@,
                opt_patterns_view(*pats),
                fuel as nat,
                0,
            ) == Err::<Seq<ListedFileV>, Error>(e),
        },
{
    let ghost pv = opt_patterns_view(*pats);
    let ghost basev = files_view(out@);
    let ghost bl = basev.len() as int;
    let ghost entries = repos@[repo as int].index@;
    let n = repos[repo].index.len();
    let mut i: usize = 0;
    while i < n
        invariant
            repo < repos@.len(),
            forall|c: int| 0 <= c < table@.len() ==> (#[trigger] table@[c].repo) < repos@.len(),
            forall|c: int|
                0 <= c < table@.len() ==> items_names_ok(#[trigger] table@[c].tree@, 0),
            pats matches Some(ps) ==> pathspec_ok(patterns_view(ps@)),
            pats is Some ==> forall|k: int|
                0 <= k < entries.len() ==> ((#[trigger] entries[k]).mode >> 12u32 != 14u32
                    ==> valid_rel_path(entries[k].path@)),
            pv == opt_patterns_view(*pats),
            basev == files_view(old(out)@),
            bl == basev.len() as int,
            entries == repos@[repo as int].index@,
            n == entries.len(),
            i <= n,
            files_view(out@).len() >= bl,
            files_view(out@).subrange(0, bl) == basev,
            ({
                let full = spec_list_index(table@, repos@, repo, entries, pv, fuel as nat, 0);
                let tail = spec_list_index(
                    table@,
                    repos@,
                    repo,
                    entries,
                    pv,
                    fuel as nat,
                    i as int,
                );
                match tail {
                    Ok(rest) => full == Ok::<Seq<ListedFileV>, Error>(
                        files_view(out@).skip(bl) + rest,
                    ),
                    Err(e) => full == Err::<Seq<ListedFileV>, Error>(e),
                }
            }),
        decreases n - i,
    {
        let ghost entryv = files_view(out@);
        let it = &repos[repo].index[i];
        if it.mode >> 12u32 == 14u32 {
            let rc = match find_submodule(&repos[repo].submodules, &it.path) {
                Some(rc) => rc,
                None => {
                    return Err(Error::SubmoduleUnavailable);
                },
            };
            let ci = match find_commit(table, rc, it.id) {
                Some(ci) => ci,
                None => {
                    return Err(Error::UnknownRevision);
                },
            };
            if fuel == 0 {
                return Err(Error::SubmoduleUnavailable);
            }
            proof {
                assert(table@[ci as int].repo == rc);
                assert(rc < repos@.len());
                reveal_strlit("");
                assert(""@ =~= Seq::<char>::empty());
            }
            match list_tree_files(table, repos, rc, &table[ci].tree, "", "", pats, fuel - 1, out)
                {
                Ok(()) => {},
                Err(e) => {
                    return Err(e);
                },
            }
        } else {
            let keep = match pats {
                Some(ps) => crate::pathspec::pathspec_matches(ps, it.path.as_str()),
                None => true,
            };
            if keep {
                out.push(ListedFile { path: it.path.clone(), id: it.id });
                proof {
                    assert(files_view(out@) =~= entryv.push(
                        ListedFileV {
                            path: entries[i as int].path@,
                            id: entries[i as int].id,
                        },
                    ));
                }
            }
        }
        proof {
            let own: Seq<ListedFileV> = if entries[i as int].mode >> 12u32 == 14u32 {
                let rc = spec_find_submodule(
                    repos@[repo as int].submodules@,
                    entries[i as int].path@,
                )->Some_0;
                let ci = spec_find_commit(table@, rc, entries[i as int].id)->Some_0;
                spec_list_items(
                    table@,
                    repos@,
                    rc,
                    table@[ci as int].tree@,
                    Seq::empty(),
                    Seq::empty(),
                    pv,
                    (fuel - 1) as nat,
                    0,
                )->Ok_0
            } else {
                if match pv {
                    Some(ps) => crate::pathspec::pathspec_accepts(ps, entries[i as int].path@),
                    None => true,
                } {
                    seq![
                        ListedFileV { path: entries[i as int].path@, id: entries[i as int].id },
                    ]
                } else {
                    Seq::empty()
                }
            };
            assert(files_view(out@) =~= entryv + own);
            assert(files_view(out@).subrange(0, bl) =~= entryv.subrange(0, bl));
            assert(files_view(out@).skip(bl) =~= entryv.skip(bl) + own);
            let tail_next = spec_list_index(
                table@,
                repos@,
                repo,
                entries,
                pv,
                fuel as nat,
                i + 1int,
            );
            match tail_next {
                Ok(rest) => {
                    assert(entryv.skip(bl) + (own + rest) =~= files_view(out@).skip(bl)
                        + rest);
                },
                Err(e) => {},
            }
        }
        i = i + 1;
    }
    proof {
        assert(spec_list_index(table@, repos@, repo, entries, pv, fuel as nat, n as int) == Ok::<
            Seq<ListedFileV>,
            Error,
        >(Seq::empty()));
        assert(files_view(out@).skip(bl) + Seq::<ListedFileV>::empty() =~= files_view(
            out@,
        ).skip(bl));
        assert(files_view(out@) =~= basev + files_view(out@).skip(bl));
    }
    Ok(())
}

/// Lists files for one request: the index of the given repository when
/// `staged` is set, else the tree of the given commit, both descending
/// through commit-links. A pathspec the engine refuses reports
/// `InvalidPathspec` before anything is walked.
pub fn list_files(
    table: &Vec<CommitEntry>,
    repos: &Vec<RepoInfo>,
    repo: usize,
    commit: usize,
    staged: bool,
    pats: &Option<Vec<String>>,
    fuel: usize,
) -> (r: Result<Vec<ListedFile>, Error>)
    requires
        repo < repos@.len(),
        commit < table@.len(),
        forall|c: int| 0 <= c < table@.len() ==> (#[trigger] table@[c].repo) < repos@.len(),
        forall|c: int| 0 <= c < table@.len() ==> items_names_ok(#[trigger] table@[c].tree@, 0),
        staged && pats is Some ==> forall|k: int|
            0 <= k < repos@[repo as int].index@.len() ==> ((#[trigger] repos@[
                repo as int].index@[k]).mode >> 12u32 != 14u32 ==> valid_rel_path(
                repos@[repo as int].index@[k].path@,
            )),
    ensures
        match r {
            Ok(v) => {
                &&& (pats matches Some(ps) ==> pathspec_ok(patterns_view(ps@)))
                &&& if staged {
                    spec_list_index(
                        table@,
                        repos@,
                        repo,
                        repos@[repo as int].index@,
                        opt_patterns_view(*pats),
                        fuel as nat,
                        0,
                    ) == Ok::<Seq<ListedFileV>, Error>(files_view(v@))
                } else {
                    spec_list_items(
                        table@,
                        repos@,
                        repo,
                        table@[commit as int].tree@,
                        Seq::empty(),
                        Seq::empty(),
                        opt_patterns_view(*pats),
                        fuel as nat,
                        0,
                    ) == Ok::<Seq<ListedFileV>, Error>(files_view(v@))
                }
            },
            Err(e) => {
                ||| (pats matches Some(ps) && !pathspec_ok(patterns_view(ps@)) && e
                    == Error::InvalidPathspec)
                ||| (if staged {
                    spec_list_index(
                        table@,
                        repos@,
                        repo,
                        repos@[repo as int].index@,
                        opt_patterns_view(*pats),
                        fuel as nat,
                        0,
                    ) == Err::<Seq<ListedFileV>, Error>(e)
                } else {
                    spec_list_items(
                        table@,
                        repos@,
                        repo,
                        table@[commit as int].tree@,
                        Seq::empty(),
                        Seq::empty(),
                        opt_patterns_view(*pats),
                        fuel as nat,
                        0,
                    ) == Err::<Seq<ListedFileV>, Error>(e)
                })
            },
        },
{
    if let Some(ps) = pats {
        if !crate::pathspec::pathspec_usable(ps) {
            return Err(Error::InvalidPathspec);
        }
    }
    let mut out: Vec<ListedFile> = Vec::new();
    proof {
        reveal_strlit("");
        assert(""@ =~= Seq::<char>::empty());
        assert(files_view(Seq::<ListedFile>::empty()) =~= Seq::<ListedFileV>::empty());
    }
    let res = if staged {
        list_index_files(table, repos, repo, pats, fuel, &mut out)
    } else {
        list_tree_files(table, repos, repo, &table[commit].tree, "", "", pats, fuel, &mut out)
    };
    match res {
        Ok(()) => {
            proof {
                assert(files_view(Seq::<ListedFile>::empty()) + files_view(out@) =~= files_view(
                    out@,
                ));
            }
            Ok(out)
        },
        Err(e) => Err(e),
    }
}

} // verus!
