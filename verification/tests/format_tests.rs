use git_sub::filter::StatusFlags;
use git_sub::format::{
    delta_label, duration_bucket, status_code, DeltaKind, DurationUnit, LabelColor,
};

#[test]
fn duration_buckets_match_their_thresholds() {
    assert_eq!(duration_bucket(0), (DurationUnit::JustNow, 0));
    assert_eq!(duration_bucket(-5), (DurationUnit::JustNow, 0));
    assert_eq!(duration_bucket(59), (DurationUnit::Seconds, 59));
    assert_eq!(duration_bucket(60), (DurationUnit::Minutes, 1));
    assert_eq!(duration_bucket(3599), (DurationUnit::Minutes, 59));
    assert_eq!(duration_bucket(3600), (DurationUnit::Hours, 1));
    assert_eq!(duration_bucket(86399), (DurationUnit::Hours, 23));
    assert_eq!(duration_bucket(90000), (DurationUnit::Days, 1));
    assert_eq!(duration_bucket(30 * 86400), (DurationUnit::Days, 30));
    assert_eq!(duration_bucket(31 * 86400), (DurationUnit::Months, 1));
    assert_eq!(duration_bucket(65 * 86400), (DurationUnit::Months, 2));
}

#[test]
fn status_codes_prefer_staged_kinds() {
    let mut f = StatusFlags::clear();
    f.index_modified = true;
    f.wt_modified = true;
    assert_eq!(status_code(&f), (String::from("M "), LabelColor::Green));
    f.index_modified = false;
    assert_eq!(status_code(&f), (String::from(" M"), LabelColor::Red));
}

#[test]
fn status_codes_for_untracked_and_ignored() {
    let mut f = StatusFlags::clear();
    assert_eq!(status_code(&f), (String::from("??"), LabelColor::Red));
    f.ignored = true;
    assert_eq!(status_code(&f), (String::from("!!"), LabelColor::Red));
    f.wt_new = true;
    assert_eq!(status_code(&f), (String::from("??"), LabelColor::Red));
}

#[test]
fn delta_labels_carry_their_colours() {
    assert_eq!(delta_label(&DeltaKind::Added), (String::from("A"), LabelColor::Green));
    assert_eq!(delta_label(&DeltaKind::Deleted), (String::from("D"), LabelColor::Red));
    assert_eq!(delta_label(&DeltaKind::Untracked), (String::from("U"), LabelColor::Plain));
    assert_eq!(delta_label(&DeltaKind::Conflicted), (String::from("C"), LabelColor::Red));
    assert_eq!(delta_label(&DeltaKind::Copied), (String::from("C"), LabelColor::Green));
}
