use git_sub::forest::{collect_heads, collect_links, discover_at_revision, TreeLink};
use git_sub::model::{CommitEntry, Error, RepoInfo, SubmoduleRef, TreeItem};

fn commit(repo: usize, id: u64, time: i64, tree: Vec<TreeItem>) -> CommitEntry {
    CommitEntry {
        repo,
        id,
        time,
        parents: Vec::new(),
        author: String::new(),
        committer: String::new(),
        author_time: 0,
        message: String::new(),
        changes: Vec::new(),
        tree,
    }
}

fn repo(mount: &str, head: usize, submodules: Vec<SubmoduleRef>) -> RepoInfo {
    RepoInfo {
        mount: String::from(mount),
        head,
        branches: Vec::new(),
        submodules,
        index: Vec::new(),
    }
}

fn sub(path: &str, repo: usize) -> SubmoduleRef {
    SubmoduleRef {
        path: String::from(path),
        repo,
    }
}

fn link(name: &str, id: u64) -> TreeItem {
    TreeItem::Link {
        name: String::from(name),
        id,
    }
}

#[test]
fn links_are_collected_with_repository_relative_paths() {
    let items = vec![
        TreeItem::Blob {
            name: String::from("a.txt"),
            id: 1,
        },
        TreeItem::Dir {
            name: String::from("libs"),
            items: vec![link("foo", 42)],
        },
        link("bar", 43),
    ];
    let mut out: Vec<TreeLink> = Vec::new();
    collect_links(&items, "", &mut out);
    let got: Vec<(String, u64)> = out.into_iter().map(|l| (l.path, l.id)).collect();
    assert_eq!(
        got,
        vec![(String::from("libs/foo"), 42), (String::from("bar"), 43)]
    );
}

#[test]
fn current_heads_take_each_repository_head() {
    let repos = vec![repo("", 3, Vec::new()), repo("sub", 7, Vec::new())];
    assert_eq!(collect_heads(&repos, false), vec![3, 7]);
}

#[test]
fn all_branches_take_every_tip() {
    let mut r0 = repo("", 3, Vec::new());
    r0.branches = vec![1, 2];
    let mut r1 = repo("sub", 7, Vec::new());
    r1.branches = vec![5];
    assert_eq!(collect_heads(&vec![r0, r1], true), vec![1, 2, 5]);
}

#[test]
fn revision_scoped_discovery_resolves_nested_pins() {
    // root commit pins repo 1 at id 42; that commit pins repo 2 at id 77
    let table = vec![
        commit(0, 1, 10, vec![link("sub", 42)]),
        commit(1, 42, 9, vec![link("inner", 77)]),
        commit(2, 77, 8, Vec::new()),
    ];
    let repos = vec![
        repo("", 0, vec![sub("sub", 1)]),
        repo("sub", 1, vec![sub("inner", 2)]),
        repo("sub/inner", 2, Vec::new()),
    ];
    let mut seeds = Vec::new();
    let r = discover_at_revision(&table, &repos, 0, 0, 5, &mut seeds);
    assert_eq!(r, Ok(()));
    assert_eq!(seeds, vec![1, 2]);
}

#[test]
fn unregistered_submodule_path_is_fatal() {
    let table = vec![commit(0, 1, 10, vec![link("nope", 42)])];
    let repos = vec![repo("", 0, Vec::new())];
    let mut seeds = Vec::new();
    let r = discover_at_revision(&table, &repos, 0, 0, 5, &mut seeds);
    assert_eq!(r, Err(Error::SubmoduleUnavailable));
}

#[test]
fn unresolvable_pin_is_fatal() {
    let table = vec![
        commit(0, 1, 10, vec![link("sub", 42)]),
        commit(1, 41, 9, Vec::new()),
    ];
    let repos = vec![repo("", 0, vec![sub("sub", 1)]), repo("sub", 1, Vec::new())];
    let mut seeds = Vec::new();
    let r = discover_at_revision(&table, &repos, 0, 0, 5, &mut seeds);
    assert_eq!(r, Err(Error::UnknownRevision));
}
