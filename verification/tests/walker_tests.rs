use git_sub::model::CommitEntry;
use git_sub::walker::{walk, Walker};

fn commit(repo: usize, id: u64, time: i64, parents: Vec<usize>) -> CommitEntry {
    CommitEntry {
        repo,
        id,
        time,
        parents,
        author: String::new(),
        committer: String::new(),
        author_time: 0,
        message: String::new(),
        changes: Vec::new(),
        tree: Vec::new(),
    }
}

fn two_repo_table() -> Vec<CommitEntry> {
    // repo 0: chain 0 <- 1 <- 2 <- 3 <- 4 (0 newest)
    // repo 1: chain 5 <- 6 <- 7 <- 8 <- 9 (5 newest)
    vec![
        commit(0, 10, 100, vec![1]),
        commit(0, 11, 98, vec![2]),
        commit(0, 12, 96, vec![3]),
        commit(0, 13, 94, vec![4]),
        commit(0, 14, 92, vec![]),
        commit(1, 20, 99, vec![6]),
        commit(1, 21, 97, vec![7]),
        commit(1, 22, 95, vec![8]),
        commit(1, 23, 93, vec![9]),
        commit(1, 24, 91, vec![]),
    ]
}

#[test]
fn merged_stream_times_are_non_increasing() {
    let table = two_repo_table();
    let out = walk(&table, &vec![0, 5]);
    assert_eq!(out.len(), 10);
    for w in out.windows(2) {
        assert!(table[w[1]].time <= table[w[0]].time);
    }
    let times: Vec<i64> = out.iter().map(|&c| table[c].time).collect();
    assert_eq!(times, vec![100, 99, 98, 97, 96, 95, 94, 93, 92, 91]);
}

#[test]
fn convergent_commit_is_emitted_exactly_once() {
    // two seeded heads reach the same ancestor along separate paths
    let table = vec![
        commit(0, 1, 1, vec![]),        // 0: the shared ancestor
        commit(0, 2, 3, vec![0]),       // 1: one head
        commit(0, 3, 2, vec![0]),       // 2: the other head
    ];
    let out = walk(&table, &vec![1, 2]);
    assert_eq!(out, vec![1, 2, 0]);
    assert_eq!(out.iter().filter(|&&c| c == 0).count(), 1);
}

#[test]
fn duplicate_seeds_are_emitted_once() {
    let table = vec![commit(0, 1, 5, vec![])];
    let out = walk(&table, &vec![0, 0, 0]);
    assert_eq!(out, vec![0]);
}

#[test]
fn equal_timestamps_break_ties_by_repo_then_id() {
    let table = vec![
        commit(1, 9, 50, vec![]),
        commit(0, 7, 50, vec![]),
        commit(0, 3, 50, vec![]),
    ];
    let out = walk(&table, &vec![0, 1, 2]);
    let keys: Vec<(usize, u64)> = out.iter().map(|&c| (table[c].repo, table[c].id)).collect();
    assert_eq!(keys, vec![(0, 3), (0, 7), (1, 9)]);
}

#[test]
fn walker_steps_match_full_walk() {
    let table = two_repo_table();
    let mut w = Walker::new(&table, &vec![0, 5]);
    let mut stepped = Vec::new();
    while let Some(c) = w.next(&table) {
        stepped.push(c);
    }
    assert_eq!(stepped, walk(&table, &vec![0, 5]));
}

#[test]
fn empty_seed_list_emits_nothing() {
    let table = two_repo_table();
    let out = walk(&table, &Vec::new());
    assert!(out.is_empty());
}
