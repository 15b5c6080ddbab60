use git_sub::model::ChangedPath;
use git_sub::pathspec::{
    commit_matches_pathspec, is_valid_rel_path, mounted_path, pathspec_matches, pathspec_usable,
};

fn change(new_path: &str) -> ChangedPath {
    ChangedPath {
        old_path: String::new(),
        new_path: String::from(new_path),
        renamed: false,
    }
}

#[test]
fn mounted_path_prefixes_the_mount() {
    assert_eq!(mounted_path("libs/foo", "src/main.c"), "libs/foo/src/main.c");
    assert_eq!(mounted_path("", "src/main.c"), "src/main.c");
}

#[test]
fn valid_rel_path_accepts_plain_relative_paths() {
    assert!(is_valid_rel_path("a"));
    assert!(is_valid_rel_path("a/b.c"));
    assert!(is_valid_rel_path(".gitignore"));
    assert!(is_valid_rel_path("...weird"));
}

#[test]
fn valid_rel_path_rejects_special_starts() {
    assert!(!is_valid_rel_path(""));
    assert!(!is_valid_rel_path("/abs"));
    assert!(!is_valid_rel_path("."));
    assert!(!is_valid_rel_path("./x"));
    assert!(!is_valid_rel_path(".."));
    assert!(!is_valid_rel_path("../x"));
    assert!(!is_valid_rel_path("a\u{0}b"));
}

#[test]
fn engine_accepts_ordinary_patterns() {
    assert!(pathspec_usable(&vec![String::from("libs/*")]));
    assert!(!pathspec_usable(&vec![String::from("a\u{0}b")]));
}

#[test]
fn matching_depends_on_the_pattern() {
    let libs = vec![String::from("libs/*")];
    let src = vec![String::from("src/*")];
    assert!(pathspec_matches(&libs, "libs/foo/src/main.c"));
    assert!(!pathspec_matches(&src, "libs/foo/src/main.c"));
    assert!(pathspec_matches(&src, "src/main.c"));
}

#[test]
fn nested_change_matches_through_the_mount_path() {
    // a repository mounted at libs/foo whose commit changes only a file inside it
    let changes = vec![vec![change("src/main.c")]];
    let libs = vec![String::from("libs/*")];
    let src = vec![String::from("src/*")];
    assert!(commit_matches_pathspec(&libs, "libs/foo", &changes));
    assert!(!commit_matches_pathspec(&src, "libs/foo", &changes));
}

#[test]
fn rename_matches_on_either_path() {
    let changes = vec![vec![ChangedPath {
        old_path: String::from("old/name.c"),
        new_path: String::from("new/name.c"),
        renamed: true,
    }]];
    let old = vec![String::from("old/*")];
    let new = vec![String::from("new/*")];
    let other = vec![String::from("doc/*")];
    assert!(commit_matches_pathspec(&old, "", &changes));
    assert!(commit_matches_pathspec(&new, "", &changes));
    assert!(!commit_matches_pathspec(&other, "", &changes));
}

#[test]
fn commit_without_parents_matches_nothing() {
    let changes: Vec<Vec<ChangedPath>> = Vec::new();
    let any = vec![String::from("*")];
    assert!(!commit_matches_pathspec(&any, "", &changes));
}

#[test]
fn merge_commit_qualifies_through_one_parent() {
    let changes = vec![Vec::new(), vec![change("kept/file.txt")]];
    let pats = vec![String::from("kept/*")];
    assert!(commit_matches_pathspec(&pats, "", &changes));
}
