use git_sub::history::{filter_history, history_page, paginate, regex_usable, HistoryFilter};
use git_sub::model::{ChangedPath, CommitEntry, Error, RepoInfo};
use git_sub::walker::walk;

fn commit(repo: usize, id: u64, time: i64, parents: Vec<usize>) -> CommitEntry {
    CommitEntry {
        repo,
        id,
        time,
        parents,
        author: String::new(),
        committer: String::new(),
        author_time: 0,
        message: String::new(),
        changes: Vec::new(),
        tree: Vec::new(),
    }
}

fn repo(mount: &str) -> RepoInfo {
    RepoInfo {
        mount: String::from(mount),
        head: 0,
        branches: Vec::new(),
        submodules: Vec::new(),
        index: Vec::new(),
    }
}

fn no_filters() -> HistoryFilter {
    HistoryFilter {
        grep: None,
        author: None,
        patterns: None,
        start: 0,
        num: None,
    }
}

fn ten_commit_stream() -> (Vec<CommitEntry>, Vec<RepoInfo>, Vec<usize>) {
    let mut table = Vec::new();
    for k in 0..10u64 {
        table.push(commit(0, k + 1, 100 - k as i64, if (k as usize) < 9 {
            vec![k as usize + 1]
        } else {
            vec![]
        }));
    }
    let repos = vec![repo("")];
    let stream = walk(&table, &vec![0]);
    (table, repos, stream)
}

#[test]
fn page_start_two_num_three_returns_ranks_three_to_five() {
    let (table, repos, stream) = ten_commit_stream();
    assert_eq!(stream.len(), 10);
    let mut f = no_filters();
    f.start = 2;
    f.num = Some(3);
    let page = history_page(&table, &repos, &stream, &f).unwrap();
    let ids: Vec<u64> = page.iter().map(|&c| table[c].id).collect();
    assert_eq!(ids, vec![3, 4, 5]);
}

#[test]
fn paginate_saturates_at_the_end() {
    let v = vec![10usize, 11, 12];
    assert_eq!(paginate(&v, 0, None), vec![10, 11, 12]);
    assert_eq!(paginate(&v, 2, Some(5)), vec![12]);
    assert_eq!(paginate(&v, 7, Some(2)), Vec::<usize>::new());
    assert_eq!(paginate(&v, 0, Some(0)), Vec::<usize>::new());
}

#[test]
fn grep_filter_keeps_matching_messages_only() {
    let mut table = vec![
        commit(0, 1, 10, vec![1]),
        commit(0, 2, 9, vec![]),
    ];
    table[0].message = String::from("fix the parser");
    table[1].message = String::from("add a feature");
    let repos = vec![repo("")];
    let stream = walk(&table, &vec![0]);
    let mut f = no_filters();
    f.grep = Some(String::from("^fix"));
    let kept = filter_history(&table, &repos, &stream, &f).unwrap();
    assert_eq!(kept.len(), 1);
    assert_eq!(table[kept[0]].id, 1);
    // an anchored pattern must not match in the middle of the text
    table[1].message = String::from("prefix fixation");
    let stream2 = walk(&table, &vec![0]);
    let kept2 = filter_history(&table, &repos, &stream2, &f).unwrap();
    assert_eq!(kept2.len(), 1);
}

#[test]
fn author_filter_applies_to_the_author_text() {
    let mut table = vec![
        commit(0, 1, 10, vec![1]),
        commit(0, 2, 9, vec![]),
    ];
    table[0].author = String::from("Ada <ada@example.net>");
    table[1].author = String::from("Grace <grace@example.net>");
    let repos = vec![repo("")];
    let stream = walk(&table, &vec![0]);
    let mut f = no_filters();
    f.author = Some(String::from("Grace"));
    let kept = filter_history(&table, &repos, &stream, &f).unwrap();
    assert_eq!(kept.len(), 1);
    assert_eq!(table[kept[0]].id, 2);
}

#[test]
fn pathspec_filter_crosses_the_mount_point() {
    let mut table = vec![commit(1, 5, 10, vec![])];
    table[0].changes = vec![vec![ChangedPath {
        old_path: String::new(),
        new_path: String::from("src/lib.rs"),
        renamed: false,
    }]];
    let repos = vec![repo(""), repo("libs/foo")];
    let stream = vec![0usize];
    let mut f = no_filters();
    f.patterns = Some(vec![String::from("libs/*")]);
    let kept = filter_history(&table, &repos, &stream, &f).unwrap();
    assert_eq!(kept.len(), 1);
    f.patterns = Some(vec![String::from("doc/*")]);
    let dropped = filter_history(&table, &repos, &stream, &f).unwrap();
    assert!(dropped.is_empty());
}

#[test]
fn bad_regex_reports_invalid_regex() {
    assert!(!regex_usable("["));
    let (table, repos, stream) = ten_commit_stream();
    let mut f = no_filters();
    f.grep = Some(String::from("["));
    assert_eq!(filter_history(&table, &repos, &stream, &f), Err(Error::InvalidRegex));
    let mut g = no_filters();
    g.author = Some(String::from("(unclosed"));
    assert_eq!(filter_history(&table, &repos, &stream, &g), Err(Error::InvalidRegex));
}

#[test]
fn bad_pathspec_reports_invalid_pathspec() {
    let (table, repos, stream) = ten_commit_stream();
    let mut f = no_filters();
    f.patterns = Some(vec![String::from("a\u{0}b")]);
    assert_eq!(filter_history(&table, &repos, &stream, &f), Err(Error::InvalidPathspec));
}
