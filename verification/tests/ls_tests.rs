use git_sub::ls_files::{list_files, ListedFile};
use git_sub::model::{CommitEntry, Error, IndexItem, RepoInfo, SubmoduleRef, TreeItem};

fn commit(repo: usize, id: u64, tree: Vec<TreeItem>) -> CommitEntry {
    CommitEntry {
        repo,
        id,
        time: 0,
        parents: Vec::new(),
        author: String::new(),
        committer: String::new(),
        author_time: 0,
        message: String::new(),
        changes: Vec::new(),
        tree,
    }
}

fn blob(name: &str, id: u64) -> TreeItem {
    TreeItem::Blob {
        name: String::from(name),
        id,
    }
}

fn forest() -> (Vec<CommitEntry>, Vec<RepoInfo>) {
    let table = vec![
        commit(
            0,
            1,
            vec![
                blob("a.txt", 1),
                TreeItem::Dir {
                    name: String::from("src"),
                    items: vec![blob("m.c", 2)],
                },
                TreeItem::Link {
                    name: String::from("sub"),
                    id: 42,
                },
            ],
        ),
        commit(1, 42, vec![blob("x.rs", 3)]),
    ];
    let repos = vec![
        RepoInfo {
            mount: String::from(""),
            head: 0,
            branches: Vec::new(),
            submodules: vec![SubmoduleRef {
                path: String::from("sub"),
                repo: 1,
            }],
            index: vec![
                IndexItem {
                    path: String::from("a.txt"),
                    id: 1,
                    mode: 0o100644,
                },
                IndexItem {
                    path: String::from("sub"),
                    id: 42,
                    mode: 0o160000,
                },
            ],
        },
        RepoInfo {
            mount: String::from("sub"),
            head: 1,
            branches: Vec::new(),
            submodules: Vec::new(),
            index: Vec::new(),
        },
    ];
    (table, repos)
}

fn paths(files: &[ListedFile]) -> Vec<&str> {
    files.iter().map(|f| f.path.as_str()).collect()
}

#[test]
fn revision_listing_crosses_the_commit_link() {
    let (table, repos) = forest();
    let files = list_files(&table, &repos, 0, 0, false, &None, 5).unwrap();
    assert_eq!(paths(&files), vec!["a.txt", "src/m.c", "sub/x.rs"]);
    let ids: Vec<u64> = files.iter().map(|f| f.id).collect();
    assert_eq!(ids, vec![1, 2, 3]);
}

#[test]
fn revision_listing_applies_the_pathspec_to_root_relative_paths() {
    let (table, repos) = forest();
    let pats = Some(vec![String::from("src/*")]);
    let files = list_files(&table, &repos, 0, 0, false, &pats, 5).unwrap();
    assert_eq!(paths(&files), vec!["src/m.c"]);
    let pats_sub = Some(vec![String::from("sub/*")]);
    let nested = list_files(&table, &repos, 0, 0, false, &pats_sub, 5).unwrap();
    assert_eq!(paths(&nested), vec!["sub/x.rs"]);
}

#[test]
fn index_listing_descends_through_gitlinks() {
    let (table, repos) = forest();
    let files = list_files(&table, &repos, 0, 0, true, &None, 5).unwrap();
    assert_eq!(paths(&files), vec!["a.txt", "x.rs"]);
}

#[test]
fn index_listing_applies_the_pathspec_to_plain_entries() {
    let (table, repos) = forest();
    let pats = Some(vec![String::from("a*")]);
    let files = list_files(&table, &repos, 0, 0, true, &pats, 5).unwrap();
    assert_eq!(paths(&files), vec!["a.txt"]);
    let pats_x = Some(vec![String::from("x*")]);
    let nested = list_files(&table, &repos, 0, 0, true, &pats_x, 5).unwrap();
    assert_eq!(paths(&nested), vec!["x.rs"]);
}

#[test]
fn listing_with_a_bad_pathspec_is_refused() {
    let (table, repos) = forest();
    let pats = Some(vec![String::from("a\u{0}b")]);
    assert_eq!(
        list_files(&table, &repos, 0, 0, false, &pats, 5).map(|v| v.len()),
        Err(Error::InvalidPathspec)
    );
}

#[test]
fn listing_an_unregistered_link_is_fatal() {
    let (table, mut repos) = forest();
    repos[0].submodules.clear();
    assert_eq!(
        list_files(&table, &repos, 0, 0, false, &None, 5).map(|v| v.len()),
        Err(Error::SubmoduleUnavailable)
    );
}
