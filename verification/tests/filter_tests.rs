use git_sub::filter::{is_staged, DiffFilter, StatusFlags};

fn flags() -> StatusFlags {
    StatusFlags::clear()
}

#[test]
fn default_filter_enables_all_categories() {
    let f = DiffFilter::default();
    assert!(f.add);
    assert!(f.deleted);
    assert!(f.modified);
    assert!(f.rename);
    assert!(f.type_changed);
    assert!(f.unknown);
}

#[test]
fn pattern_adm_enables_added_and_modified_only() {
    let f = DiffFilter::from("AdM");
    assert!(f.add);
    assert!(!f.deleted);
    assert!(f.modified);
    assert!(!f.rename);
    assert!(!f.type_changed);
    assert!(!f.unknown);
}

#[test]
fn pattern_lowercase_overrides_earlier_uppercase() {
    let f = DiffFilter::from("Aa");
    assert!(!f.add);
    let f2 = DiffFilter::from("aA");
    assert!(f2.add);
}

#[test]
fn pattern_ignores_unrelated_characters() {
    let f = DiffFilter::from("x!R 9u");
    assert!(!f.add);
    assert!(f.rename);
    assert!(!f.unknown);
}

#[test]
fn pattern_all_letters() {
    let f = DiffFilter::from("ADMRTU");
    assert_eq!(f, DiffFilter::default());
}

#[test]
fn test_classifies_added_first() {
    let mut s = flags();
    s.index_new = true;
    s.wt_modified = true;
    let only_modified = DiffFilter::from("M");
    assert!(!only_modified.test(&s));
    let only_added = DiffFilter::from("A");
    assert!(only_added.test(&s));
}

#[test]
fn test_modified_beats_deleted() {
    let mut s = flags();
    s.index_deleted = true;
    s.wt_modified = true;
    let only_deleted = DiffFilter::from("D");
    assert!(!only_deleted.test(&s));
    let only_modified = DiffFilter::from("M");
    assert!(only_modified.test(&s));
}

#[test]
fn test_unknown_when_nothing_set() {
    let s = flags();
    let only_unknown = DiffFilter::from("U");
    assert!(only_unknown.test(&s));
    let without_unknown = DiffFilter::from("ADMRT");
    assert!(!without_unknown.test(&s));
}

#[test]
fn staged_means_an_index_flag() {
    let mut s = flags();
    assert!(!is_staged(&s));
    s.wt_modified = true;
    assert!(!is_staged(&s));
    s.index_renamed = true;
    assert!(is_staged(&s));
}
