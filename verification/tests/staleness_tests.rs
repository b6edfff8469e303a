use bootstrap::staleness::{dir_up_to_date, up_to_date, SourceMeta, Timestamp};

fn ts(secs: u64, nanos: u32) -> Timestamp {
    Timestamp { secs, nanos }
}

#[test]
fn missing_destination_is_never_up_to_date() {
    let src = SourceMeta::File { mtime: ts(5, 0) };
    assert!(!up_to_date(&src, &None));
    let src = SourceMeta::Dir { entry_mtimes: vec![] };
    assert!(!up_to_date(&src, &None));
}

#[test]
fn file_equal_mtime_is_up_to_date() {
    let src = SourceMeta::File { mtime: ts(100, 0) };
    assert!(up_to_date(&src, &Some(ts(100, 0))));
}

#[test]
fn file_one_second_newer_flips_to_stale() {
    let src = SourceMeta::File { mtime: ts(101, 0) };
    assert!(!up_to_date(&src, &Some(ts(100, 0))));
}

#[test]
fn epoch_source_never_forces_rebuild() {
    let src = SourceMeta::File { mtime: Timestamp::epoch() };
    assert!(up_to_date(&src, &Some(ts(0, 0))));
}

#[test]
fn dir_entry_newer_is_stale() {
    let src = SourceMeta::Dir { entry_mtimes: vec![ts(101, 0)] };
    assert!(!up_to_date(&src, &Some(ts(100, 0))));
}

#[test]
fn dir_entry_exactly_equal_is_still_stale() {
    let src = SourceMeta::Dir { entry_mtimes: vec![ts(100, 0)] };
    assert!(!up_to_date(&src, &Some(ts(100, 0))));
}

#[test]
fn dir_entry_strictly_older_is_up_to_date() {
    let src = SourceMeta::Dir { entry_mtimes: vec![ts(99, 999999999)] };
    assert!(up_to_date(&src, &Some(ts(100, 0))));
}

#[test]
fn empty_dir_is_up_to_date() {
    let src = SourceMeta::Dir { entry_mtimes: vec![] };
    assert!(up_to_date(&src, &Some(ts(0, 0))));
}

#[test]
fn dir_up_to_date_checks_every_entry() {
    let entries = vec![ts(1, 0), ts(2, 0), ts(3, 0)];
    assert!(dir_up_to_date(&entries, &ts(4, 0)));
    assert!(!dir_up_to_date(&entries, &ts(3, 0)));
}

#[test]
fn nanoseconds_break_ties() {
    let src = SourceMeta::File { mtime: ts(100, 2) };
    assert!(!up_to_date(&src, &Some(ts(100, 1))));
    let src = SourceMeta::File { mtime: ts(100, 1) };
    assert!(up_to_date(&src, &Some(ts(100, 1))));
}
