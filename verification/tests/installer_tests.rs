use veridian_manager::file_system::AbsolutePath;
use veridian_manager::installer::{
    CreateDirectoryTask, CreateLinkTask, EnvTask, InstallErr, InstallRun, Installer, LinkType,
    Task, WriteFileTask,
};
use veridian_manager::recorder::{FileRecord, UndoAction};

fn abs(strs: &[&str]) -> AbsolutePath {
    AbsolutePath::new(strs.iter().map(|s| s.as_bytes().to_vec()).collect()).unwrap()
}

fn two_file_plan() -> Installer {
    // One subdirectory and two files, as an install of `a.txt` and
    // `sub/b.txt` into a fresh destination produces.
    let dirs = vec![CreateDirectoryTask::new(abs(&["dest", "sub"]))];
    let files = vec![
        WriteFileTask::FromPath { from: abs(&["src", "a.txt"]), to: abs(&["dest", "a.txt"]) },
        WriteFileTask::FromPath {
            from: abs(&["src", "sub", "b.txt"]),
            to: abs(&["dest", "sub", "b.txt"]),
        },
    ];
    Installer::new(dirs, files, Vec::new(), Vec::new())
}

#[test]
fn install_runs_directories_before_files() {
    let mut run = InstallRun::new(two_file_plan());
    match run.current().unwrap() {
        Task::Dir(t) => assert_eq!(t.path(), &abs(&["dest", "sub"])),
        _ => panic!("expected the directory task first"),
    }
    run.succeed();
    match run.current().unwrap() {
        Task::File(t) => assert_eq!(t.destination(), &abs(&["dest", "a.txt"])),
        _ => panic!("expected a file task second"),
    }
}

#[test]
fn full_success_yields_application_with_complete_log() {
    let mut run = InstallRun::new(two_file_plan());
    while let Some(_task) = run.current() {
        run.succeed();
    }
    let app = run.into_result().unwrap();
    let rec = app.recorder();
    assert_eq!(rec.dir_count(), 1);
    assert_eq!(rec.file_count(), 2);
    assert_eq!(rec.file_paths()[0], FileRecord::new(abs(&["dest", "a.txt"])));
    assert_eq!(rec.file_paths()[1], FileRecord::new(abs(&["dest", "sub", "b.txt"])));
}

#[test]
fn rollback_of_full_install_removes_everything_created() {
    // After a full install of the two-file plan, the plan's undo steps
    // remove exactly what was created, files before their directory, so
    // the destination is left empty.
    let mut run = InstallRun::new(two_file_plan());
    while let Some(_task) = run.current() {
        run.succeed();
    }
    let app = run.into_result().unwrap();
    let plan = app.recorder().rollback_plan();
    let expected = vec![
        UndoAction::RemoveFile(abs(&["dest", "sub", "b.txt"])),
        UndoAction::RemoveFile(abs(&["dest", "a.txt"])),
        UndoAction::RemoveDirectory(abs(&["dest", "sub"])),
    ];
    assert_eq!(plan, expected);
}

#[test]
fn failure_at_kth_task_leaves_k_minus_one_records() {
    // Third task fails: the partial log holds exactly the two records of
    // the tasks that succeeded before it, and nothing after it runs.
    let mut run = InstallRun::new(two_file_plan());
    run.succeed();
    run.succeed();
    run.fail();
    assert!(run.current().is_none());
    let (partial, err) = run.into_result().unwrap_err();
    assert_eq!(
        partial.dir_count() + partial.file_count() + partial.link_count() + partial.env_count(),
        2
    );
    assert_eq!(err, InstallErr::WriteFile(abs(&["dest", "sub", "b.txt"])));
}

#[test]
fn failure_on_first_task_leaves_empty_log() {
    let mut run = InstallRun::new(two_file_plan());
    run.fail();
    let (partial, err) = run.into_result().unwrap_err();
    assert_eq!(partial.dir_count(), 0);
    assert_eq!(partial.file_count(), 0);
    assert_eq!(err, InstallErr::CreateDirectory(abs(&["dest", "sub"])));
}

#[test]
fn link_and_env_tasks_are_recorded_in_order() {
    let links = vec![CreateLinkTask::new(
        abs(&["dest", "bin", "tool"]),
        abs(&["menu", "tool"]),
        LinkType::Symbolic,
    )];
    let envs = vec![EnvTask {}];
    let plan = Installer::new(Vec::new(), Vec::new(), links, envs);
    let mut run = InstallRun::new(plan);
    match run.current().unwrap() {
        Task::Link(t) => {
            assert_eq!(t.to_path(), &abs(&["menu", "tool"]));
            assert_eq!(t.kind(), LinkType::Symbolic);
        },
        _ => panic!("expected the link task first"),
    }
    run.succeed();
    assert!(matches!(run.current().unwrap(), Task::Env(_)));
    run.succeed();
    let app = run.into_result().unwrap();
    assert_eq!(app.recorder().link_count(), 1);
    assert_eq!(app.recorder().env_count(), 1);
}

#[test]
fn inline_contents_task_records_its_destination() {
    let files = vec![WriteFileTask::Contents {
        content: b"hello".to_vec(),
        to: abs(&["dest", "greeting"]),
    }];
    let mut run = InstallRun::new(Installer::new(Vec::new(), files, Vec::new(), Vec::new()));
    run.succeed();
    let app = run.into_result().unwrap();
    assert_eq!(app.recorder().file_paths()[0], FileRecord::new(abs(&["dest", "greeting"])));
}
