//! Repository forest discovery.
//!
//! Two traversal modes seed a history walk. Current-heads mode takes every
//! repository's checked-out commit — or every branch tip when all branches
//! are requested. Revision-scoped mode starts from one commit of a
//! repository and resolves, for every commit-link found in that commit's
//! tree, the pinned commit inside the child repository, recursing into that
//! commit's tree in turn: the state of the whole forest as of one historical
//! revision.

use vstd::prelude::*;

verus! {

use crate::model::{CommitEntry, Error, RepoInfo, SubmoduleRef, TreeItem};
use crate::pathspec::spec_mounted_path;

/// A commit-link found in a tree, with its repository-relative path.
#[derive(Debug)]
pub struct TreeLink {
    pub path: String,
    pub id: u64,
}

/// The mathematical picture of a found commit-link.
pub ghost struct TreeLinkV {
    pub path: Seq<char>,
    pub id: u64,
}

impl View for TreeLink {
    type V = TreeLinkV;

    open spec fn view(&self) -> TreeLinkV {
        TreeLinkV { path: self.path@, id: self.id }
    }
}

/// The views of a vector of found commit-links.
pub open spec fn links_view(links: Seq<TreeLink>) -> Seq<TreeLinkV> {
    links.map_values(|l: TreeLink| l@)
}

/// The commit-links of one tree entry, each under its repository-relative
/// path, in tree order.
pub open spec fn links_of_item(item: TreeItem, prefix: Seq<char>) -> Seq<TreeLinkV>
    decreases item, 0int,
{
    match item {
        TreeItem::Blob { .. } => Seq::empty(),
        TreeItem::Link { name, id } => seq![
            TreeLinkV { path: spec_mounted_path(prefix, name@), id },
        ],
        TreeItem::Dir { name, items } => links_of_items(
            items@,
            spec_mounted_path(prefix, name@),
            0,
        ),
    }
}

/// The commit-links of the tree entries `items[i..]`.
pub open spec fn links_of_items(items: Seq<TreeItem>, prefix: Seq<char>, i: int) -> Seq<TreeLinkV>
    decreases items, items.len() - i + 1int,
{
    if 0 <= i < items.len() {
        links_of_item(items[i], prefix) + links_of_items(items, prefix, i + 1)
    } else {
        Seq::empty()
    }
}

/// Collects every commit-link under the given tree entries, appending to
/// `out` in tree order, each under its repository-relative path.
pub fn collect_links(items: &Vec<TreeItem>, prefix: &str, out: &mut Vec<TreeLink>)
    ensures
        links_view(final(out)@) == links_view(old(out)@) + links_of_items(items@, prefix@, 0),
    decreases items@,
{
    let ghost base = out@;
    let n = items.len();
    let mut i: usize = 0;
    proof {
        assert(links_view(out@) + links_of_items(items@, prefix@, 0int) =~= links_view(base)
            + links_of_items(items@, prefix@, 0int));
    }
    while i < n
        invariant
            n == items@.len(),
            i <= n,
            links_view(out@) + links_of_items(items@, prefix@, i as int) == links_view(base)
                + links_of_items(items@, prefix@, 0int),
        decreases n - i,
    {
        let ghost before = out@;
        match &items[i] {
            TreeItem::Blob { .. } => {
                proof {
                    assert(links_of_item(items@[i as int], prefix@) =~= Seq::<
                        TreeLinkV,
                    >::empty());
                }
            },
            TreeItem::Link { name, id } => {
                let full = crate::pathspec::mounted_path(prefix, name.as_str());
                out.push(TreeLink { path: full, id: *id });
                proof {
                    assert(links_view(out@) =~= links_view(before) + links_of_item(
                        items@[i as int],
                        prefix@,
                    ));
                }
            },
            TreeItem::Dir { name, items: sub } => {
                let sub_prefix = crate::pathspec::mounted_path(prefix, name.as_str());
                collect_links(sub, sub_prefix.as_str(), out);
                proof {
                    assert(links_view(out@) =~= links_view(before) + links_of_item(
                        items@[i as int],
                        prefix@,
                    ));
                }
            },
        }
        proof {
            assert(links_of_items(items@, prefix@, i as int) =~= links_of_item(
                items@[i as int],
                prefix@,
            ) + links_of_items(items@, prefix@, i + 1int));
            assert(links_view(out@) + links_of_items(items@, prefix@, i + 1int) =~= links_view(
                before,
            ) + links_of_items(items@, prefix@, i as int));
        }
        i = i + 1;
    }
    proof {
        assert(links_of_items(items@, prefix@, n as int) =~= Seq::<TreeLinkV>::empty());
        assert(links_view(out@) =~= links_view(out@) + links_of_items(
            items@,
            prefix@,
            n as int,
        ));
    }
}

/// The first registered submodule whose path equals the given one, searched
/// from position `i`.
pub open spec fn spec_find_submodule_from(
    subs: Seq<SubmoduleRef>,
    path: Seq<char>,
    i: int,
) -> Option<usize>
    decreases subs.len() - i,
{
    if 0 <= i < subs.len() {
        if subs[i].path@ == path {
            Some(subs[i].repo)
        } else {
            spec_find_submodule_from(subs, path, i + 1)
        }
    } else {
        None
    }
}

/// The repository registered for a submodule path, if any.
pub open spec fn spec_find_submodule(subs: Seq<SubmoduleRef>, path: Seq<char>) -> Option<usize> {
    spec_find_submodule_from(subs, path, 0)
}

/// Looks a submodule path up among a repository's registrations.
pub fn find_submodule(subs: &Vec<SubmoduleRef>, path: &String) -> (r: Option<usize>)
    ensures
        r == spec_find_submodule(subs@, path@),
{
    let n = subs.len();
    let mut i: usize = 0;
    while i < n
        invariant
            n == subs@.len(),
            i <= n,
            spec_find_submodule(subs@, path@) == spec_find_submodule_from(
                subs@,
                path@,
                i as int,
            ),
        decreases n - i,
    {
        if subs[i].path.eq(path) {
            return Some(subs[i].repo);
        }
        i = i + 1;
    }
    None
}

/// The first commit of the given repository with the given id token,
/// searched from position `i` of the commit table.
pub open spec fn spec_find_commit_from(
    t: Seq<CommitEntry>,
    repo: usize,
    id: u64,
    i: int,
) -> Option<usize>
    decreases t.len() - i,
{
    if 0 <= i < t.len() {
        if t[i].repo == repo && t[i].id == id {
            Some(i as usize)
        } else {
            spec_find_commit_from(t, repo, id, i + 1)
        }
    } else {
        None
    }
}

/// The table index of a repository's commit with the given id, if any.
pub open spec fn spec_find_commit(t: Seq<CommitEntry>, repo: usize, id: u64) -> Option<usize> {
    spec_find_commit_from(t, repo, id, 0)
}

/// Resolves a commit id inside one repository to its table index.
pub fn find_commit(table: &Vec<CommitEntry>, repo: usize, id: u64) -> (r: Option<usize>)
    ensures
        r == spec_find_commit(table@, repo, id),
        r matches Some(c) ==> c < table@.len() && table@[c as int].repo == repo && table@[
            c as int].id == id,
{
    let n = table.len();
    let mut i: usize = 0;
    while i < n
        invariant
            n == table@.len(),
            i <= n,
            spec_find_commit(table@, repo, id) == spec_find_commit_from(
                table@,
                repo,
                id,
                i as int,
            ),
        decreases n - i,
    {
        if table[i].repo == repo && table[i].id == id {
            return Some(i);
        }
        i = i + 1;
    }
    None
}

/// The current-heads seeds: every repository's checked-out commit, or every
/// branch tip of every repository when all branches are requested.
pub open spec fn spec_current_heads(repos: Seq<RepoInfo>, all: bool) -> Seq<usize>
    decreases repos.len(),
{
    if repos.len() == 0 {
        Seq::empty()
    } else {
        let rest = spec_current_heads(repos.drop_last(), all);
        if all {
            rest + repos.last().branches@
        } else {
            rest.push(repos.last().head)
        }
    }
}

/// Collects the current-heads seeds over the whole repository table.
pub fn collect_heads(repos: &Vec<RepoInfo>, all: bool) -> (r: Vec<usize>)
    ensures
        r@ == spec_current_heads(repos@, all),
{
    let mut out: Vec<usize> = Vec::new();
    let n = repos.len();
    let mut i: usize = 0;
    proof {
        assert(repos@.subrange(0, 0int) =~= Seq::<RepoInfo>::empty());
    }
    while i < n
        invariant
            n == repos@.len(),
            i <= n,
            out@ == spec_current_heads(repos@.subrange(0, i as int), all),
        decreases n - i,
    {
        if all {
            let m = repos[i].branches.len();
            let mut j: usize = 0;
            while j < m
                invariant
                    i < n,
                    n == repos@.len(),
                    m == repos@[i as int].branches@.len(),
                    j <= m,
                    out@ == spec_current_heads(repos@.subrange(0, i as int), all) + repos@[
                        i as int].branches@.subrange(0, j as int),
                decreases m - j,
            {
                out.push(repos[i].branches[j]);
                proof {
                    assert(repos@[i as int].branches@.subrange(0, j + 1int) =~= repos@[
                        i as int].branches@.subrange(0, j as int).push(
                        repos@[i as int].branches@[j as int],
                    ));
                    assert(out@ =~= spec_current_heads(repos@.subrange(0, i as int), all)
                        + repos@[i as int].branches@.subrange(0, j + 1int));
                }
                j = j + 1;
            }
            proof {
                assert(repos@[i as int].branches@.subrange(0, m as int) =~= repos@[
                    i as int].branches@);
            }
        } else {
            out.push(repos[i].head);
        }
        proof {
            let sub = repos@.subrange(0, i + 1int);
            assert(sub.drop_last() =~= repos@.subrange(0, i as int));
            assert(sub.last() == repos@[i as int]);
        }
        i = i + 1;
    }
    proof {
        assert(repos@.subrange(0, n as int) =~= repos@);
    }
    out
}

/// The revision-scoped seeds below one commit: for each commit-link of its
/// tree, in order, the resolved pinned commit followed by the seeds of that
/// commit's own subtree. An unregistered submodule path reports
/// `SubmoduleUnavailable`; an unresolvable pinned id reports
/// `UnknownRevision`; nesting deeper than `fuel` — never reached on an
/// acyclic forest given fuel at least the number of repositories — reports
/// `SubmoduleUnavailable`.
pub open spec fn spec_discover(
    t: Seq<CommitEntry>,
    repos: Seq<RepoInfo>,
    repo: usize,
    commit: usize,
    fuel: nat,
) -> Result<Seq<usize>, Error>
    decreases fuel, 2int, 0int,
{
    spec_resolve_links(
        t,
        repos,
        repo,
        links_of_items(t[commit as int].tree@, Seq::empty(), 0),
        fuel,
        0,
    )
}

/// Resolves the commit-links `links[i..]` of one repository's tree.
pub open spec fn spec_resolve_links(
    t: Seq<CommitEntry>,
    repos: Seq<RepoInfo>,
    repo: usize,
    links: Seq<TreeLinkV>,
    fuel: nat,
    i: int,
) -> Result<Seq<usize>, Error>
    decreases fuel, 1int, links.len() - i,
{
    if 0 <= i < links.len() {
        match spec_find_submodule(repos[repo as int].submodules@, links[i].path) {
            None => Err(Error::SubmoduleUnavailable),
            Some(rc) => match spec_find_commit(t, rc, links[i].id) {
                None => Err(Error::UnknownRevision),
                Some(ci) => if fuel == 0 {
                    Err(Error::SubmoduleUnavailable)
                } else {
                    match spec_discover(t, repos, rc, ci, (fuel - 1) as nat) {
                        Err(e) => Err(e),
                        Ok(sub) => match spec_resolve_links(t, repos, repo, links, fuel, i + 1) {
                            Err(e) => Err(e),
                            Ok(rest) => Ok(seq![ci] + sub + rest),
                        },
                    }
                },
            },
        }
    } else {
        Ok(Seq::empty())
    }
}

/// A resolved prefix joined with the outcome of the links still open: the
/// prefix goes in front of a success, an error stands as it is.
pub open spec fn combine(prefix: Seq<usize>, r: Result<Seq<usize>, Error>) -> Result<
    Seq<usize>,
    Error,
> {
    match r {
        Ok(v) => Ok(prefix + v),
        Err(e) => Err(e),
    }
}

/// Revision-scoped discovery: appends to `seeds`, for every commit-link
/// reachable from the given commit's tree, the pinned commit of the child
/// repository, depth-first in tree order. On an error nothing more is
/// appended and the already-appended prefix stays.
pub fn discover_at_revision(
    table: &Vec<CommitEntry>,
    repos: &Vec<RepoInfo>,
    repo: usize,
    commit: usize,
    fuel: usize,
    seeds: &mut Vec<usize>,
) -> (r: Result<(), Error>)
    requires
        repo < repos@.len(),
        commit < table@.len(),
        forall|c: int|
            0 <= c < table@.len() ==> (#[trigger] table@[c].repo) < repos@.len(),
    ensures
        match r {
            Ok(()) => {
                &&& spec_discover(table@, repos@, repo, commit, fuel as nat) matches Ok(v)
                    && final(seeds)@ == old(seeds)@ + v
                &&& forall|k: int|
                    old(seeds)@.len() <= k < final(seeds)@.len() ==> final(seeds)@[k]
                        < table@.len()
            },
            Err(e) => {
                &&& spec_discover(table@, repos@, repo, commit, fuel as nat) == Err::<
                    Seq<usize>,
                    Error,
                >(e)
                &&& final(seeds)@.len() >= old(seeds)@.len()
                &&& forall|k: int| 0 <= k < old(seeds)@.len() ==> final(seeds)@[k] == old(
                    seeds,
                )@[k]
                &&& forall|k: int|
                    old(seeds)@.len() <= k < final(seeds)@.len() ==> final(seeds)@[k]
                        < table@.len()
            },
        },
    decreases fuel,
{
    let mut links: Vec<TreeLink> = Vec::new();
    collect_links(&table[commit].tree, "", &mut links);
    proof {
        reveal_strlit("");
        assert(""@ =~= Seq::<char>::empty());
        assert(links_view(Seq::<TreeLink>::empty()) =~= Seq::<TreeLinkV>::empty());
        assert(links_view(links@) =~= links_of_items(
            table@[commit as int].tree@,
            Seq::empty(),
            0,
        ));
    }
    let ghost lv = links_view(links@);
    let ghost base = seeds@;
    let n = links.len();
    let mut i: usize = 0;
    while i < n
        invariant
            repo < repos@.len(),
            forall|c: int|
                0 <= c < table@.len() ==> (#[trigger] table@[c].repo) < repos@.len(),
            n == links@.len(),
            i <= n,
            commit < table@.len(),
            lv == links_view(links@),
            lv == links_of_items(table@[commit as int].tree@, Seq::empty(), 0),
            lv.len() == n,
            base == old(seeds)@,
            forall|k: int| 0 <= k < base.len() ==> seeds@[k] == base[k],
            seeds@.len() >= base.len(),
            forall|k: int| base.len() <= k < seeds@.len() ==> seeds@[k] < table@.len(),
            spec_resolve_links(table@, repos@, repo, lv, fuel as nat, 0) == combine(
                seeds@.skip(base.len() as int),
                spec_resolve_links(table@, repos@, repo, lv, fuel as nat, i as int),
            ),
        decreases n - i,
    {
        let ghost entry = seeds@;
        let path = links[i].path.clone();
        let id = links[i].id;
        proof {
            assert(lv[i as int] == links@[i as int]@);
        }
        let rc = match find_submodule(&repos[repo].submodules, &path) {
            Some(rc) => rc,
            None => {
                proof {
                    assert(path@ == lv[i as int].path);
                    assert(spec_find_submodule(repos@[repo as int].submodules@, lv[
                        i as int].path) is None);
                    assert(spec_resolve_links(table@, repos@, repo, lv, fuel as nat, i as int)
                        == Err::<Seq<usize>, Error>(Error::SubmoduleUnavailable));
                    assert(spec_discover(table@, repos@, repo, commit, fuel as nat)
                        == spec_resolve_links(table@, repos@, repo, lv, fuel as nat, 0));
                }
                return Err(Error::SubmoduleUnavailable);
            },
        };
        let ci = match find_commit(table, rc, id) {
            Some(ci) => ci,
            None => {
                proof {
                    assert(spec_discover(table@, repos@, repo, commit, fuel as nat)
                        == spec_resolve_links(table@, repos@, repo, lv, fuel as nat, 0));
                }
                return Err(Error::UnknownRevision);
            },
        };
        if fuel == 0 {
            proof {
                assert(spec_discover(table@, repos@, repo, commit, fuel as nat)
                    == spec_resolve_links(table@, repos@, repo, lv, fuel as nat, 0));
            }
            return Err(Error::SubmoduleUnavailable);
        }
        proof {
            assert(table@[ci as int].repo == rc);
            assert(rc < repos@.len());
        }
        seeds.push(ci);
        match discover_at_revision(table, repos, rc, ci, fuel - 1, seeds) {
            Ok(()) => {},
            Err(e) => {
                proof {
                    assert(spec_resolve_links(table@, repos@, repo, lv, fuel as nat, i as int)
                        == Err::<Seq<usize>, Error>(e));
                    assert(spec_discover(table@, repos@, repo, commit, fuel as nat)
                        == spec_resolve_links(table@, repos@, repo, lv, fuel as nat, 0));
                }
                return Err(e);
            },
        }
        proof {
            let sub = spec_discover(table@, repos@, rc, ci, (fuel - 1) as nat)->Ok_0;
            assert(seeds@.skip(base.len() as int) =~= entry.skip(base.len() as int) + seq![ci]
                + sub);
            let tail = spec_resolve_links(table@, repos@, repo, lv, fuel as nat, i + 1int);
            match tail {
                Err(e) => {
                    assert(spec_resolve_links(table@, repos@, repo, lv, fuel as nat, i as int)
                        == Err::<Seq<usize>, Error>(e));
                },
                Ok(rest) => {
                    assert(spec_resolve_links(table@, repos@, repo, lv, fuel as nat, i as int)
                        == Ok::<Seq<usize>, Error>(seq![ci] + sub + rest));
                    assert(entry.skip(base.len() as int) + (seq![ci] + sub + rest)
                        =~= seeds@.skip(base.len() as int) + rest);
                },
            }
        }
        i = i + 1;
    }
    proof {
        assert(spec_resolve_links(table@, repos@, repo, lv, fuel as nat, n as int) == Ok::<
            Seq<usize>,
            Error,
        >(Seq::empty()));
        assert(seeds@.skip(base.len() as int) + Seq::<usize>::empty() =~= seeds@.skip(
            base.len() as int,
        ));
        assert(spec_discover(table@, repos@, repo, commit, fuel as nat) == spec_resolve_links(
            table@,
            repos@,
            repo,
            lv,
            fuel as nat,
            0,
        ));
        assert(base + seeds@.skip(base.len() as int) =~= seeds@);
    }
    Ok(())
}

} // verus!
