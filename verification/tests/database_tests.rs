use veridian_manager::application::Application;
use veridian_manager::config::Config;
use veridian_manager::database::{Database, PersistenceError};
use veridian_manager::file_system::AbsolutePath;
use veridian_manager::recorder::{DirectoryRecord, FileRecord, Recorder};

fn abs(strs: &[&str]) -> AbsolutePath {
    AbsolutePath::new(strs.iter().map(|s| s.as_bytes().to_vec()).collect()).unwrap()
}

fn sample_recorder() -> Recorder {
    let mut r = Recorder::default();
    r.record_directory(DirectoryRecord::new(abs(&["dest", "sub"])));
    r.record_file(FileRecord::new(abs(&["dest", "a.txt"])));
    r
}

fn memory_database() -> Database {
    let connection = sqlite::Connection::open_thread_safe(":memory:").unwrap();
    Database::new(connection).unwrap()
}

#[test]
fn add_then_get_returns_recorder_equal_copy() {
    // Store an application, read it back by id: an equal recorder under
    // the same id; remove hands the same application back and a later
    // lookup finds nothing.
    let mut db = memory_database();
    let app = Application::new(42u128, sample_recorder());
    db.add_application(app).unwrap();

    let got = db.get_application(42u128).unwrap().unwrap();
    assert_eq!(got.id(), 42u128);
    assert_eq!(got.recorder(), &sample_recorder());

    let removed = db.remove_application(42u128).unwrap().unwrap();
    assert_eq!(removed.id(), 42u128);
    assert_eq!(removed.recorder(), &sample_recorder());

    assert!(db.get_application(42u128).unwrap().is_none());
}

#[test]
fn get_of_absent_id_is_absence_not_error() {
    let db = memory_database();
    assert!(db.get_application(7u128).unwrap().is_none());
}

#[test]
fn distinct_ids_stay_distinct() {
    let mut db = memory_database();
    db.add_application(Application::new(1u128, sample_recorder())).unwrap();
    db.add_application(Application::new(2u128, Recorder::default())).unwrap();
    let one = db.get_application(1u128).unwrap().unwrap();
    let two = db.get_application(2u128).unwrap().unwrap();
    assert_eq!(one.recorder().file_count(), 1);
    assert_eq!(two.recorder().file_count(), 0);
}

#[test]
fn duplicate_id_is_rejected_by_the_store() {
    let mut db = memory_database();
    db.add_application(Application::new(5u128, Recorder::default())).unwrap();
    let r = db.add_application(Application::new(5u128, sample_recorder()));
    assert_eq!(r.unwrap_err(), PersistenceError::Storage);
    // The rejected insert changed nothing.
    let kept = db.get_application(5u128).unwrap().unwrap();
    assert_eq!(kept.recorder(), &Recorder::default());
}

#[test]
fn remove_of_absent_id_returns_none() {
    let mut db = memory_database();
    assert!(db.remove_application(9u128).unwrap().is_none());
}

#[test]
fn fresh_identity_keeps_the_recorder() {
    let app = Application::with_fresh_id(sample_recorder());
    assert_eq!(app.recorder(), &sample_recorder());
    let rec = app.into_recorder();
    assert_eq!(rec, sample_recorder());
}

#[test]
fn stock_config_has_personal_and_global_profiles() {
    let config = Config::new("/home/someone/apps".to_owned(), "/usr/bin".to_owned());
    let personal = config.profile(&"personal".to_owned()).unwrap();
    assert_eq!(personal.default_install_path, "/home/someone/apps".to_owned());
    let global = config.profile(&"global".to_owned()).unwrap();
    assert_eq!(global.default_install_path, "/usr/bin".to_owned());
    assert!(config.profile(&"other".to_owned()).is_none());
}
