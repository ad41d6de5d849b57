use veridian_manager::file_system::{AbsolutePath, FileName};
use veridian_manager::installer::{CreateDirectoryTask, InstallRun, Task, WriteFileTask};
use veridian_manager::installer_builder::{
    BuildError, DirEntry, EntryKind, InstallerBuilder, Source, SourcePath, SourceResolveErr,
    SourceResolveOK, SourceResolver,
};

fn abs(strs: &[&str]) -> AbsolutePath {
    AbsolutePath::new(strs.iter().map(|s| s.as_bytes().to_vec()).collect()).unwrap()
}

fn entry(name: &str, kind: EntryKind) -> DirEntry {
    DirEntry { name: FileName::new(name.as_bytes().to_vec()).unwrap(), kind }
}

fn disk_source(root: &[&str], pattern: &str, dest: &[&str]) -> Source {
    Source {
        path: SourcePath::Disk(abs(root), pattern.to_owned()),
        destination: abs(dest),
    }
}

#[test]
fn resolver_rejects_a_broken_pattern() {
    let source = disk_source(&["src"], "[", &["dest"]);
    assert_eq!(SourceResolver::new(&source).unwrap_err(), SourceResolveErr::Pattern);
}

#[test]
fn unreadable_directory_aborts_with_its_path_and_no_tasks() {
    // A failed listing aborts resolution: the error names the directory
    // and no task list escapes.
    let source = disk_source(&["src"], "/src/**", &["dest"]);
    let mut resolver = SourceResolver::new(&source).unwrap();
    assert_eq!(resolver.current_dir().unwrap(), abs(&["src"]));
    let r = resolver.step(None);
    assert_eq!(r.unwrap_err(), SourceResolveErr::ReadDir(abs(&["src"])));
    assert!(resolver.current_dir().is_none());
}

#[test]
fn matching_tree_yields_one_task_per_match() {
    // Two files and one subdirectory match: exactly two file-write tasks
    // and one directory task, every destination inside the destination
    // root, and the walk descends into the matched subdirectory.
    let source = disk_source(&["src"], "/src/**", &["dest"]);
    let mut resolver = SourceResolver::new(&source).unwrap();
    assert_eq!(resolver.current_dir().unwrap(), abs(&["src"]));
    let listing = vec![
        entry("a.txt", EntryKind::File),
        entry("sub", EntryKind::Dir),
    ];
    assert_eq!(resolver.step(Some(listing)).unwrap(), true);
    assert_eq!(resolver.current_dir().unwrap(), abs(&["src", "sub"]));
    let listing = vec![entry("b.txt", EntryKind::File)];
    assert_eq!(resolver.step(Some(listing)).unwrap(), false);
    let SourceResolveOK { dir_tasks, file_tasks } = resolver.finish();
    assert_eq!(dir_tasks, vec![CreateDirectoryTask::new(abs(&["dest", "sub"]))]);
    assert_eq!(
        file_tasks,
        vec![
            WriteFileTask::FromPath {
                from: abs(&["src", "a.txt"]),
                to: abs(&["dest", "a.txt"]),
            },
            WriteFileTask::FromPath {
                from: abs(&["src", "sub", "b.txt"]),
                to: abs(&["dest", "sub", "b.txt"]),
            },
        ]
    );
}

#[test]
fn pattern_filters_non_matching_entries() {
    // Only names ending in .txt match; the other file and the directory
    // contribute no task, and an unmatched directory is not descended.
    let source = disk_source(&["src"], "/src/*.txt", &["dest"]);
    let mut resolver = SourceResolver::new(&source).unwrap();
    let listing = vec![
        entry("a.txt", EntryKind::File),
        entry("b.bin", EntryKind::File),
        entry("sub", EntryKind::Dir),
    ];
    assert_eq!(resolver.step(Some(listing)).unwrap(), false);
    let resolved = resolver.finish();
    assert_eq!(resolved.dir_tasks.len(), 0);
    assert_eq!(resolved.file_tasks.len(), 1);
    assert_eq!(
        resolved.file_tasks[0],
        WriteFileTask::FromPath { from: abs(&["src", "a.txt"]), to: abs(&["dest", "a.txt"]) }
    );
}

#[test]
fn entries_that_are_neither_file_nor_directory_are_passed_over() {
    let source = disk_source(&["src"], "/src/**", &["dest"]);
    let mut resolver = SourceResolver::new(&source).unwrap();
    let listing = vec![entry("socket", EntryKind::Other)];
    assert_eq!(resolver.step(Some(listing)).unwrap(), false);
    let resolved = resolver.finish();
    assert_eq!(resolved.dir_tasks.len(), 0);
    assert_eq!(resolved.file_tasks.len(), 0);
}

#[test]
fn try_build_takes_the_first_source_error() {
    // The earliest failed resolution decides the build, and no partial
    // plan escapes.
    let mut builder = InstallerBuilder::new();
    builder.add_source(disk_source(&["one"], "/one/**", &["dest"]));
    builder.add_source(disk_source(&["two"], "/two/**", &["dest"]));
    let outcomes = vec![
        Err(SourceResolveErr::ReadDir(abs(&["one"]))),
        Err(SourceResolveErr::Pattern),
    ];
    let r = builder.try_build(outcomes);
    assert_eq!(
        r.unwrap_err(),
        BuildError::SourceError(SourceResolveErr::ReadDir(abs(&["one"])))
    );
}

#[test]
fn try_build_accepts_a_prefix_ending_in_an_error() {
    // The caller may stop resolving at the first failure; later sources
    // are never consulted.
    let mut builder = InstallerBuilder::new();
    builder.add_source(disk_source(&["one"], "/one/**", &["dest"]));
    builder.add_source(disk_source(&["two"], "/two/**", &["dest"]));
    let outcomes = vec![Ok(SourceResolveOK { dir_tasks: Vec::new(), file_tasks: Vec::new() }),
        Err(SourceResolveErr::Pattern)];
    let r = builder.try_build(outcomes);
    assert_eq!(r.unwrap_err(), BuildError::SourceError(SourceResolveErr::Pattern));
}

#[test]
fn try_build_merges_when_every_source_resolved() {
    let mut builder = InstallerBuilder::new();
    builder.add_source(disk_source(&["one"], "/one/**", &["dest"]));
    let outcomes = vec![Ok(SourceResolveOK {
        dir_tasks: vec![CreateDirectoryTask::new(abs(&["dest", "d1"]))],
        file_tasks: Vec::new(),
    })];
    let installer = builder.try_build(outcomes).unwrap();
    let mut run = InstallRun::new(installer);
    match run.current().unwrap() {
        Task::Dir(t) => assert_eq!(t.path(), &abs(&["dest", "d1"])),
        _ => panic!("expected the directory task"),
    }
    run.succeed();
    assert!(run.current().is_none());
}

#[test]
fn builder_merges_sources_in_order() {
    // Static directory entries first, then each source's directories in
    // source order; files afterwards in the same source order.
    let mut builder = InstallerBuilder::new();
    builder.add_directory(abs(&["dest", "static"]));
    builder.add_source(disk_source(&["one"], "/one/**", &["dest"]));
    builder.add_source(disk_source(&["two"], "/two/**", &["dest"]));
    let resolved = vec![
        SourceResolveOK {
            dir_tasks: vec![CreateDirectoryTask::new(abs(&["dest", "d1"]))],
            file_tasks: vec![WriteFileTask::FromPath {
                from: abs(&["one", "f1"]),
                to: abs(&["dest", "f1"]),
            }],
        },
        SourceResolveOK {
            dir_tasks: vec![CreateDirectoryTask::new(abs(&["dest", "d2"]))],
            file_tasks: vec![WriteFileTask::FromPath {
                from: abs(&["two", "f2"]),
                to: abs(&["dest", "f2"]),
            }],
        },
    ];
    let installer = builder.build(resolved);
    let mut run = InstallRun::new(installer);
    let mut seen: Vec<String> = Vec::new();
    while let Some(task) = run.current() {
        let text = match task {
            Task::Dir(t) => format!("dir {:?}", String::from_utf8_lossy(&t.path().to_bytes())),
            Task::File(t) => {
                format!("file {:?}", String::from_utf8_lossy(&t.destination().to_bytes()))
            },
            Task::Link(_) => "link".to_owned(),
            Task::Env(_) => "env".to_owned(),
        };
        seen.push(text);
        run.succeed();
    }
    assert_eq!(
        seen,
        vec![
            "dir \"/dest/static\"".to_owned(),
            "dir \"/dest/d1\"".to_owned(),
            "dir \"/dest/d2\"".to_owned(),
            "file \"/dest/f1\"".to_owned(),
            "file \"/dest/f2\"".to_owned(),
        ]
    );
}
