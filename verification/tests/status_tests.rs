use git_sub::filter::{DiffFilter, StatusFlags};
use git_sub::status_agg::{
    aggregate_status, RepoReport, RepoStatusNode, ShowOption, StatusItem, StatusQuery,
};

fn item(path: &str, set: impl Fn(&mut StatusFlags)) -> StatusItem {
    let mut flags = StatusFlags::clear();
    set(&mut flags);
    StatusItem {
        flags,
        path: String::from(path),
        old_path: String::new(),
        new_path: String::new(),
    }
}

fn clean_node(name: &str, head: u64, pinned: u64) -> RepoStatusNode {
    RepoStatusNode {
        name: String::from(name),
        head_id: head,
        pinned_id: pinned,
        state_clean: true,
        state_label: String::new(),
        index_entries: Vec::new(),
        worktree_entries: Vec::new(),
        children: Vec::new(),
    }
}

fn query() -> StatusQuery {
    StatusQuery {
        show_option: ShowOption::Both,
        diff_filter: DiffFilter::default(),
        all: false,
    }
}

fn run(node: &RepoStatusNode, q: &StatusQuery) -> Vec<RepoReport> {
    let mut out = Vec::new();
    aggregate_status(node, q, &mut out);
    out
}

#[test]
fn clean_repo_produces_no_block_but_children_are_still_evaluated() {
    let mut root = clean_node("root", 1, 1);
    let mut child = clean_node("sub", 2, 2);
    child
        .worktree_entries
        .push(item("dirty.txt", |f| f.wt_modified = true));
    root.children.push(child);
    let reports = run(&root, &query());
    assert_eq!(reports.len(), 1);
    assert_eq!(reports[0].name, "sub");
}

#[test]
fn head_drift_alone_selects_a_submodule() {
    // the submodule's own sets are empty, yet its head differs from the pin
    let mut root = clean_node("root", 1, 1);
    let drifted = clean_node("sub", 7, 9);
    root.children.push(drifted);
    let reports = run(&root, &query());
    assert_eq!(reports.len(), 1);
    assert_eq!(reports[0].name, "sub");
    assert!(reports[0].drifted);
    assert_eq!(reports[0].head_id, 7);
    assert_eq!(reports[0].pinned_id, 9);
}

#[test]
fn print_all_reports_every_repository() {
    let mut root = clean_node("root", 1, 1);
    root.children.push(clean_node("a", 2, 2));
    root.children.push(clean_node("b", 3, 3));
    let mut q = query();
    q.all = true;
    let reports = run(&root, &q);
    let names: Vec<&str> = reports.iter().map(|r| r.name.as_str()).collect();
    assert_eq!(names, vec!["root", "a", "b"]);
}

#[test]
fn unclean_state_selects_a_repository() {
    let mut root = clean_node("root", 1, 1);
    root.state_clean = false;
    root.state_label = String::from("Rebase");
    let reports = run(&root, &query());
    assert_eq!(reports.len(), 1);
    assert_eq!(reports[0].state_label, "Rebase");
    assert!(!reports[0].drifted);
}

#[test]
fn category_filter_can_deselect_a_repository() {
    let mut root = clean_node("root", 1, 1);
    root.index_entries.push(item("new.txt", |f| f.index_new = true));
    let mut q = query();
    q.diff_filter = DiffFilter::from("dM");
    let reports = run(&root, &q);
    assert!(reports.is_empty());
    let permissive = run(&root, &query());
    assert_eq!(permissive.len(), 1);
    assert_eq!(permissive[0].index_kept.len(), 1);
    assert_eq!(permissive[0].index_kept[0].path, "new.txt");
}

#[test]
fn show_option_limits_which_sets_count() {
    let mut root = clean_node("root", 1, 1);
    root.worktree_entries
        .push(item("w.txt", |f| f.wt_deleted = true));
    let mut q = query();
    q.show_option = ShowOption::Index;
    assert!(run(&root, &q).is_empty());
    q.show_option = ShowOption::WorkTree;
    let reports = run(&root, &q);
    assert_eq!(reports.len(), 1);
    assert_eq!(reports[0].worktree_kept.len(), 1);
    assert!(reports[0].index_kept.is_empty());
}

#[test]
fn drift_is_detected_per_level() {
    let mut root = clean_node("root", 1, 1);
    let mut mid = clean_node("mid", 2, 2);
    let leaf = clean_node("mid/leaf", 5, 6);
    mid.children.push(leaf);
    root.children.push(mid);
    let reports = run(&root, &query());
    assert_eq!(reports.len(), 1);
    assert_eq!(reports[0].name, "mid/leaf");
    assert!(reports[0].drifted);
}
