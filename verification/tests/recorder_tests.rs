use veridian_manager::file_system::AbsolutePath;
use veridian_manager::recorder::{
    rollback_failures, DirectoryRecord, EnvRecord, FileRecord, LinkRecord, Recorder, UndoAction,
};

fn abs(strs: &[&str]) -> AbsolutePath {
    AbsolutePath::new(strs.iter().map(|s| s.as_bytes().to_vec()).collect()).unwrap()
}

fn sample_recorder() -> Recorder {
    let mut r = Recorder::with_capacity(0, 0, 0, 0);
    r.record_directory(DirectoryRecord::new(abs(&["dest", "sub"])));
    r.record_file(FileRecord::new(abs(&["dest", "a.txt"])));
    r.record_file(FileRecord::new(abs(&["dest", "sub", "b.txt"])));
    r.record_link(LinkRecord::new(abs(&["dest", "lnk"])));
    r.record_env(EnvRecord {});
    r
}

#[test]
fn record_counts_follow_appends() {
    let r = sample_recorder();
    assert_eq!(r.dir_count(), 1);
    assert_eq!(r.file_count(), 2);
    assert_eq!(r.link_count(), 1);
    assert_eq!(r.env_count(), 1);
}

#[test]
fn empty_recorder_has_no_records() {
    let r = Recorder::default();
    assert_eq!(r.dir_count(), 0);
    assert_eq!(r.file_count(), 0);
    assert_eq!(r.link_count(), 0);
    assert_eq!(r.env_count(), 0);
}

#[test]
fn round_trip_reproduces_identical_record_set() {
    // Serialize then deserialize: equal record count and order per kind.
    let r = sample_recorder();
    let bytes = r.to_binary();
    let back = Recorder::from_binary(&bytes).unwrap();
    assert_eq!(back, r);
    assert_eq!(back.dir_count(), 1);
    assert_eq!(back.file_count(), 2);
    assert_eq!(back.file_paths()[0], FileRecord::new(abs(&["dest", "a.txt"])));
    assert_eq!(back.file_paths()[1], FileRecord::new(abs(&["dest", "sub", "b.txt"])));
}

#[test]
fn round_trip_of_empty_recorder() {
    let r = Recorder::default();
    let back = Recorder::from_binary(&r.to_binary()).unwrap();
    assert_eq!(back, r);
}

#[test]
fn binary_form_is_the_documented_layout() {
    // One directory record at "/a": section count 1, one path of one
    // component of one byte, then empty file and link sections and a zero
    // environment count, every number eight bytes little-endian.
    let mut r = Recorder::with_capacity(1, 0, 0, 0);
    r.record_directory(DirectoryRecord::new(abs(&["a"])));
    let mut expected: Vec<u8> = Vec::new();
    expected.extend_from_slice(&[1, 0, 0, 0, 0, 0, 0, 0]); // one directory record
    expected.extend_from_slice(&[1, 0, 0, 0, 0, 0, 0, 0]); // one path component
    expected.extend_from_slice(&[1, 0, 0, 0, 0, 0, 0, 0]); // one byte in it
    expected.push(97); // "a"
    expected.extend_from_slice(&[0, 0, 0, 0, 0, 0, 0, 0]); // no file records
    expected.extend_from_slice(&[0, 0, 0, 0, 0, 0, 0, 0]); // no link records
    expected.extend_from_slice(&[0, 0, 0, 0, 0, 0, 0, 0]); // no env records
    assert_eq!(r.to_binary(), expected);
}

#[test]
fn garbage_bytes_do_not_decode() {
    assert!(Recorder::from_binary(&vec![1, 2, 3]).is_none());
}

#[test]
fn trailing_bytes_do_not_decode() {
    let mut bytes = sample_recorder().to_binary();
    bytes.push(0);
    assert!(Recorder::from_binary(&bytes).is_none());
}

#[test]
fn rollback_plan_reverses_install_order() {
    // Environment entries, then links, files, directories — each kind
    // newest first, so contents go before their containers.
    let r = sample_recorder();
    let plan = r.rollback_plan();
    let expected = vec![
        UndoAction::UnsetEnv,
        UndoAction::RemoveLink(abs(&["dest", "lnk"])),
        UndoAction::RemoveFile(abs(&["dest", "sub", "b.txt"])),
        UndoAction::RemoveFile(abs(&["dest", "a.txt"])),
        UndoAction::RemoveDirectory(abs(&["dest", "sub"])),
    ];
    assert_eq!(plan, expected);
}

#[test]
fn rollback_failures_collects_failed_positions() {
    let outcomes = vec![true, false, true, false];
    assert_eq!(rollback_failures(&outcomes), vec![1usize, 3usize]);
}

#[test]
fn rollback_failures_empty_when_all_undone() {
    let outcomes = vec![true, true];
    assert_eq!(rollback_failures(&outcomes), Vec::<usize>::new());
}
