//! Tasks — the atomic, ordered units of installation work — and the
//! execution engine that consumes them.
//!
//! The engine is a state machine: the caller asks for the current task,
//! performs the corresponding filesystem operation, and reports success or
//! failure. On success the matching record is appended to the undo log; on
//! the first failure execution halts and the partial log is handed back, so
//! the log always reflects exactly the prefix of tasks that truly
//! succeeded. Tasks run in a fixed order: directories, then files, then
//! links, then environment entries.

use vstd::prelude::*;

use crate::application::Application;
use crate::file_system::AbsolutePath;
use crate::recorder::{
    DirectoryRecord, EnvRecord, FileRecord, LinkRecord, Recorder, RecorderView,
};

verus! {

/// Creates one directory (with any missing ancestors) at the path.
#[derive(Debug, Clone, PartialEq, Eq)]
pub struct CreateDirectoryTask(AbsolutePath);

impl View for CreateDirectoryTask {
    type V = Seq<Seq<u8>>;

    closed spec fn view(&self) -> Seq<Seq<u8>> {
        self.0@
    }
}

impl CreateDirectoryTask {
    pub fn new(path: AbsolutePath) -> (r: Self)
        ensures
            r@ == path@,
    {
        CreateDirectoryTask(path)
    }

    pub fn path(&self) -> (r: &AbsolutePath)
        ensures
            r@ == self@,
    {
        &self.0
    }

    /// A structurally equal copy whose view is known to match.
    pub fn duplicate(&self) -> (r: Self)
        ensures
            r@ == self@,
    {
        CreateDirectoryTask(self.0.duplicate())
    }
}

/// The mathematical content of a file-write task.
pub enum WriteFileTaskView {
    FromPath { from: Seq<Seq<u8>>, to: Seq<Seq<u8>> },
    Contents { content: Seq<u8>, to: Seq<Seq<u8>> },
}

/// The destination path of a file-write task.
pub open spec fn write_file_dest(w: WriteFileTaskView) -> Seq<Seq<u8>> {
    match w {
        WriteFileTaskView::FromPath { from: _, to } => to,
        WriteFileTaskView::Contents { content: _, to } => to,
    }
}

/// Writes one file at `to`: either copied from a source path or filled with
/// inline bytes.
#[derive(Debug, Clone, PartialEq, Eq)]
pub enum WriteFileTask {
    FromPath { from: AbsolutePath, to: AbsolutePath },
    Contents { content: Vec<u8>, to: AbsolutePath },
}

impl View for WriteFileTask {
    type V = WriteFileTaskView;

    open spec fn view(&self) -> WriteFileTaskView {
        match self {
            WriteFileTask::FromPath { from, to } => (WriteFileTaskView::FromPath {
                from: from@,
                to: to@,
            }),
            WriteFileTask::Contents { content, to } => (WriteFileTaskView::Contents {
                content: content@,
                to: to@,
            }),
        }
    }
}

impl WriteFileTask {
    /// The destination the task writes to.
    pub fn destination(&self) -> (r: &AbsolutePath)
        ensures
            r@ == write_file_dest(self@),
    {
        match self {
            WriteFileTask::FromPath { from: _, to } => to,
            WriteFileTask::Contents { content: _, to } => to,
        }
    }

    /// A structurally equal copy whose view is known to match.
    pub fn duplicate(&self) -> (r: Self)
        ensures
            r@ == self@,
    {
        match self {
            WriteFileTask::FromPath { from, to } => (WriteFileTask::FromPath {
                from: from.duplicate(),
                to: to.duplicate(),
            }),
            WriteFileTask::Contents { content, to } => {
                let c = content.clone();
                proof {
                    assert(c@ =~= content@);
                }
                WriteFileTask::Contents { content: c, to: to.duplicate() }
            },
        }
    }
}

/// How a link is realized on the platform.
#[derive(Debug, Clone, Copy, PartialEq, Eq, Structural)]
pub enum LinkType {
    Shortcut,
    Symbolic,
    Hard,
}

/// The mathematical content of a link task.
pub struct LinkTaskView {
    pub from: Seq<Seq<u8>>,
    pub to: Seq<Seq<u8>>,
    pub kind: LinkType,
}

/// Creates one link at `to` pointing at `from`.
#[derive(Debug, Clone, PartialEq, Eq)]
pub struct CreateLinkTask {
    from: AbsolutePath,
    to: AbsolutePath,
    link_type: LinkType,
}

impl View for CreateLinkTask {
    type V = LinkTaskView;

    closed spec fn view(&self) -> LinkTaskView {
        LinkTaskView { from: self.from@, to: self.to@, kind: self.link_type }
    }
}

impl CreateLinkTask {
    pub fn new(from: AbsolutePath, to: AbsolutePath, link_type: LinkType) -> (r: Self)
        ensures
            r@ == (LinkTaskView { from: from@, to: to@, kind: link_type }),
    {
        CreateLinkTask { from, to, link_type }
    }

    pub fn from_path(&self) -> (r: &AbsolutePath)
        ensures
            r@ == self@.from,
    {
        &self.from
    }

    pub fn to_path(&self) -> (r: &AbsolutePath)
        ensures
            r@ == self@.to,
    {
        &self.to
    }

    pub fn kind(&self) -> (r: LinkType)
        ensures
            r == self@.kind,
    {
        self.link_type
    }

    /// A structurally equal copy whose view is known to match.
    pub fn duplicate(&self) -> (r: Self)
        ensures
            r@ == self@,
    {
        CreateLinkTask {
            from: self.from.duplicate(),
            to: self.to.duplicate(),
            link_type: self.link_type,
        }
    }
}

/// Sets one environment entry; its attributes are an extension point and
/// carry no data yet.
#[derive(Debug, Clone, PartialEq, Eq)]
pub struct EnvTask {}

/// The views of a sequence of directory tasks.
pub open spec fn views_of_dir_tasks(s: Seq<CreateDirectoryTask>) -> Seq<Seq<Seq<u8>>> {
    s.map_values(|t: CreateDirectoryTask| t@)
}

/// The views of a sequence of file tasks.
pub open spec fn views_of_file_tasks(s: Seq<WriteFileTask>) -> Seq<WriteFileTaskView> {
    s.map_values(|t: WriteFileTask| t@)
}

/// The views of a sequence of link tasks.
pub open spec fn views_of_link_tasks(s: Seq<CreateLinkTask>) -> Seq<LinkTaskView> {
    s.map_values(|t: CreateLinkTask| t@)
}

/// The mathematical content of an installer: the ordered task lists of each
/// kind.
pub struct InstallerView {
    pub dirs: Seq<Seq<Seq<u8>>>,
    pub files: Seq<WriteFileTaskView>,
    pub links: Seq<LinkTaskView>,
    pub envs: nat,
}

/// The ordered task lists of one planned installation, consumed in the
/// fixed order: directories, files, links, environment entries.
#[derive(Debug)]
pub struct Installer {
    dir_tasks: Vec<CreateDirectoryTask>,
    file_tasks: Vec<WriteFileTask>,
    link_tasks: Vec<CreateLinkTask>,
    env_tasks: Vec<EnvTask>,
}

impl View for Installer {
    type V = InstallerView;

    closed spec fn view(&self) -> InstallerView {
        InstallerView {
            dirs: views_of_dir_tasks(self.dir_tasks@),
            files: views_of_file_tasks(self.file_tasks@),
            links: views_of_link_tasks(self.link_tasks@),
            envs: self.env_tasks@.len(),
        }
    }
}

impl Installer {
    pub fn new(
        dir_tasks: Vec<CreateDirectoryTask>,
        file_tasks: Vec<WriteFileTask>,
        link_tasks: Vec<CreateLinkTask>,
        env_tasks: Vec<EnvTask>,
    ) -> (r: Self)
        ensures
            r@ == (InstallerView {
                dirs: views_of_dir_tasks(dir_tasks@),
                files: views_of_file_tasks(file_tasks@),
                links: views_of_link_tasks(link_tasks@),
                envs: env_tasks@.len(),
            }),
    {
        Installer { dir_tasks, file_tasks, link_tasks, env_tasks }
    }
}

/// One task of any kind, as handed to the caller for execution.
#[derive(Debug, Clone, PartialEq, Eq)]
pub enum Task {
    Dir(CreateDirectoryTask),
    File(WriteFileTask),
    Link(CreateLinkTask),
    Env(EnvTask),
}

/// The mathematical content of one task of any kind.
pub enum TaskView {
    Dir(Seq<Seq<u8>>),
    File(WriteFileTaskView),
    Link(LinkTaskView),
    Env,
}

impl View for Task {
    type V = TaskView;

    open spec fn view(&self) -> TaskView {
        match self {
            Task::Dir(t) => TaskView::Dir(t@),
            Task::File(t) => TaskView::File(t@),
            Task::Link(t) => TaskView::Link(t@),
            Task::Env(_) => TaskView::Env,
        }
    }
}

/// The record that completing a task appends to the undo log.
pub open spec fn add_record(rv: RecorderView, t: TaskView) -> RecorderView {
    match t {
        TaskView::Dir(p) => RecorderView { dirs: rv.dirs.push(p), ..rv },
        TaskView::File(w) => RecorderView { files: rv.files.push(write_file_dest(w)), ..rv },
        TaskView::Link(l) => RecorderView { links: rv.links.push(l.to), ..rv },
        TaskView::Env => RecorderView { envs: rv.envs + 1, ..rv },
    }
}

/// The undo log that a partially executed plan must have produced: exactly
/// the completed prefix of each kind, in execution order.
pub open spec fn partial_records(v: InstallerView, dd: int, df: int, dl: int, de: int) -> RecorderView {
    RecorderView {
        dirs: v.dirs.take(dd),
        files: v.files.take(df).map_values(|w: WriteFileTaskView| write_file_dest(w)),
        links: v.links.take(dl).map_values(|l: LinkTaskView| l.to),
        envs: de as nat,
    }
}

/// Why an installation attempt halted: the failing operation kind, with the
/// path it was working on.
#[derive(Debug, Clone, PartialEq, Eq)]
pub enum InstallErr {
    CreateDirectory(AbsolutePath),
    WriteFile(AbsolutePath),
    CreateLink(AbsolutePath),
    Env,
}

/// The mathematical content of an installation error.
pub enum InstallErrView {
    CreateDirectory(Seq<Seq<u8>>),
    WriteFile(Seq<Seq<u8>>),
    CreateLink(Seq<Seq<u8>>),
    Env,
}

impl View for InstallErr {
    type V = InstallErrView;

    open spec fn view(&self) -> InstallErrView {
        match self {
            InstallErr::CreateDirectory(p) => InstallErrView::CreateDirectory(p@),
            InstallErr::WriteFile(p) => InstallErrView::WriteFile(p@),
            InstallErr::CreateLink(p) => InstallErrView::CreateLink(p@),
            InstallErr::Env => InstallErrView::Env,
        }
    }
}

/// The error that a failure on the given task reports.
pub open spec fn err_of(t: TaskView) -> InstallErrView {
    match t {
        TaskView::Dir(p) => InstallErrView::CreateDirectory(p),
        TaskView::File(w) => InstallErrView::WriteFile(write_file_dest(w)),
        TaskView::Link(l) => InstallErrView::CreateLink(l.to),
        TaskView::Env => InstallErrView::Env,
    }
}

/// What an installation attempt concludes with: on success the completed
/// application; on the first failure, the partial undo log paired with the
/// error, so the caller can roll back.
pub type InstallResult = Result<Application, (Recorder, InstallErr)>;

/// One installation attempt in progress. The caller drives it: ask for the
/// current task, perform it, and report the outcome; each task is attempted
/// exactly once and a failure is terminal.
pub struct InstallRun {
    installer: Installer,
    dirs_done: usize,
    files_done: usize,
    links_done: usize,
    envs_done: usize,
    recorder: Recorder,
    failure: Option<InstallErr>,
}

impl InstallRun {
    /// The plan being executed.
    pub closed spec fn plan(self) -> InstallerView {
        self.installer@
    }

    /// Completed task counts, per kind.
    pub closed spec fn dirs_done(self) -> nat {
        self.dirs_done as nat
    }

    pub closed spec fn files_done(self) -> nat {
        self.files_done as nat
    }

    pub closed spec fn links_done(self) -> nat {
        self.links_done as nat
    }

    pub closed spec fn envs_done(self) -> nat {
        self.envs_done as nat
    }

    /// How many tasks have completed in all.
    pub open spec fn done_count(self) -> nat {
        self.dirs_done() + self.files_done() + self.links_done() + self.envs_done()
    }

    /// The undo log accumulated so far.
    pub closed spec fn recorder_view(self) -> RecorderView {
        self.recorder@
    }

    /// Whether a task has failed; a failure is terminal.
    pub closed spec fn has_failed(self) -> bool {
        self.failure is Some
    }

    /// The recorded failure, if any.
    pub closed spec fn failure_view(self) -> Option<InstallErrView> {
        match self.failure {
            Option::Some(e) => Option::Some(e@),
            Option::None => Option::None,
        }
    }

    /// The run's invariant: phases complete strictly in order, and the undo
    /// log holds exactly one record per completed task, in execution order.
    pub open spec fn wf(self) -> bool {
        &&& self.dirs_done() <= self.plan().dirs.len()
        &&& self.files_done() <= self.plan().files.len()
        &&& self.links_done() <= self.plan().links.len()
        &&& self.envs_done() <= self.plan().envs
        &&& (self.files_done() > 0 ==> self.dirs_done() == self.plan().dirs.len())
        &&& (self.links_done() > 0 ==> self.files_done() == self.plan().files.len()
            && self.dirs_done() == self.plan().dirs.len())
        &&& (self.envs_done() > 0 ==> self.links_done() == self.plan().links.len()
            && self.files_done() == self.plan().files.len() && self.dirs_done()
            == self.plan().dirs.len())
        &&& self.recorder_view() == partial_records(
            self.plan(),
            self.dirs_done() as int,
            self.files_done() as int,
            self.links_done() as int,
            self.envs_done() as int,
        )
    }

    /// The task to attempt next: the first unfinished task of the earliest
    /// unfinished kind, or nothing when the run has failed or finished.
    pub open spec fn current_task(self) -> Option<TaskView> {
        if self.has_failed() {
            Option::None
        } else if self.dirs_done() < self.plan().dirs.len() {
            Option::Some(TaskView::Dir(self.plan().dirs[self.dirs_done() as int]))
        } else if self.files_done() < self.plan().files.len() {
            Option::Some(TaskView::File(self.plan().files[self.files_done() as int]))
        } else if self.links_done() < self.plan().links.len() {
            Option::Some(TaskView::Link(self.plan().links[self.links_done() as int]))
        } else if self.envs_done() < self.plan().envs {
            Option::Some(TaskView::Env)
        } else {
            Option::None
        }
    }

    /// Starts an attempt on a plan, with an empty undo log.
    pub fn new(installer: Installer) -> (r: Self)
        ensures
            r.wf(),
            r.plan() == installer@,
            r.done_count() == 0,
            !r.has_failed(),
            r.recorder_view() == RecorderView::empty(),
    {
        let recorder = Recorder::with_capacity(
            installer.dir_tasks.len(),
            installer.file_tasks.len(),
            installer.link_tasks.len(),
            installer.env_tasks.len(),
        );
        let r = InstallRun {
            installer,
            dirs_done: 0,
            files_done: 0,
            links_done: 0,
            envs_done: 0,
            recorder,
            failure: Option::None,
        };
        proof {
            assert(r.recorder_view().dirs =~= partial_records(r.plan(), 0, 0, 0, 0).dirs);
            assert(r.recorder_view().files =~= partial_records(r.plan(), 0, 0, 0, 0).files);
            assert(r.recorder_view().links =~= partial_records(r.plan(), 0, 0, 0, 0).links);
        }
        r
    }

    /// Hands out the task to attempt next, or nothing when the run is over.
    pub fn current(&self) -> (r: Option<Task>)
        requires
            self.wf(),
        ensures
            match r {
                Option::Some(t) => self.current_task() == Option::Some(t@),
                Option::None => self.current_task() is None,
            },
    {
        if self.failure.is_some() {
            return Option::None;
        }
        if self.dirs_done < self.installer.dir_tasks.len() {
            return Option::Some(Task::Dir(self.installer.dir_tasks[self.dirs_done].duplicate()));
        }
        if self.files_done < self.installer.file_tasks.len() {
            return Option::Some(Task::File(self.installer.file_tasks[self.files_done].duplicate()));
        }
        if self.links_done < self.installer.link_tasks.len() {
            return Option::Some(Task::Link(self.installer.link_tasks[self.links_done].duplicate()));
        }
        if self.envs_done < self.installer.env_tasks.len() {
            return Option::Some(Task::Env(EnvTask {  }));
        }
        Option::None
    }

    /// Records that the current task completed: the matching record is
    /// appended to the undo log and execution moves on.
    pub fn succeed(&mut self)
        requires
            old(self).wf(),
            old(self).current_task() is Some,
        ensures
            final(self).wf(),
            final(self).plan() == old(self).plan(),
            !final(self).has_failed(),
            final(self).done_count() == old(self).done_count() + 1,
            final(self).recorder_view() == add_record(
                old(self).recorder_view(),
                old(self).current_task()->Some_0,
            ),
    {
        let ghost plan = self.installer@;
        if self.dirs_done < self.installer.dir_tasks.len() {
            let ghost dd = self.dirs_done as int;
            let task = &self.installer.dir_tasks[self.dirs_done];
            let record = DirectoryRecord::new(task.path().duplicate());
            self.recorder.record_directory(record);
            self.dirs_done = self.dirs_done + 1;
            proof {
                assert(plan.dirs.take(dd + 1) =~= plan.dirs.take(dd).push(plan.dirs[dd]));
            }
        } else if self.files_done < self.installer.file_tasks.len() {
            let ghost df = self.files_done as int;
            let task = &self.installer.file_tasks[self.files_done];
            let record = FileRecord::new(task.destination().duplicate());
            self.recorder.record_file(record);
            self.files_done = self.files_done + 1;
            proof {
                assert(plan.files.take(df + 1).map_values(
                    |w: WriteFileTaskView| write_file_dest(w),
                ) =~= plan.files.take(df).map_values(|w: WriteFileTaskView| write_file_dest(w)).push(
                    write_file_dest(plan.files[df]),
                ));
            }
        } else if self.links_done < self.installer.link_tasks.len() {
            let ghost dl = self.links_done as int;
            let task = &self.installer.link_tasks[self.links_done];
            let record = LinkRecord::new(task.to_path().duplicate());
            self.recorder.record_link(record);
            self.links_done = self.links_done + 1;
            proof {
                assert(plan.links.take(dl + 1).map_values(|l: LinkTaskView| l.to)
                    =~= plan.links.take(dl).map_values(|l: LinkTaskView| l.to).push(
                    plan.links[dl].to,
                ));
            }
        } else {
            proof {
                assert(old(self).current_task() == Option::Some(TaskView::Env));
            }
            let pending = self.installer.env_tasks.len();
            proof {
                assert(self.envs_done < pending);
            }
            let record = EnvRecord {  };
            self.recorder.record_env(record);
            self.envs_done = self.envs_done + 1;
        }
    }

    /// Records that the current task failed: nothing is appended to the
    /// undo log, and the run is terminally failed; no later task is ever
    /// handed out.
    pub fn fail(&mut self)
        requires
            old(self).wf(),
            old(self).current_task() is Some,
        ensures
            final(self).wf(),
            final(self).plan() == old(self).plan(),
            final(self).has_failed(),
            final(self).done_count() == old(self).done_count(),
            final(self).recorder_view() == old(self).recorder_view(),
            final(self).failure_view() == Option::Some(err_of(old(self).current_task()->Some_0)),
            final(self).current_task() is None,
    {
        if self.dirs_done < self.installer.dir_tasks.len() {
            let task = &self.installer.dir_tasks[self.dirs_done];
            self.failure = Option::Some(InstallErr::CreateDirectory(task.path().duplicate()));
        } else if self.files_done < self.installer.file_tasks.len() {
            let task = &self.installer.file_tasks[self.files_done];
            self.failure = Option::Some(InstallErr::WriteFile(task.destination().duplicate()));
        } else if self.links_done < self.installer.link_tasks.len() {
            let task = &self.installer.link_tasks[self.links_done];
            self.failure = Option::Some(InstallErr::CreateLink(task.to_path().duplicate()));
        } else {
            self.failure = Option::Some(InstallErr::Env);
        }
    }

    /// Concludes the attempt once no task is left to hand out: on full
    /// success a freshly identified application owning the complete log; on
    /// failure the partial log paired with the error.
    pub fn into_result(self) -> (r: InstallResult)
        requires
            self.wf(),
            self.current_task() is None,
        ensures
            !self.has_failed() ==> (r matches Ok(app) && app@.recorder == self.recorder_view()),
            self.has_failed() ==> (r matches Err(pair) && pair.0@ == self.recorder_view()
                && Option::Some(pair.1@) == self.failure_view()),
    {
        match self.failure {
            Option::Some(e) => Err((self.recorder, e)),
            Option::None => Ok(Application::with_fresh_id(self.recorder)),
        }
    }
}

/// The undo log of a run that completed `k` tasks holds exactly `k`
/// records: one per completed task, none fabricated, none dropped.
pub proof fn lemma_partial_records_total(v: InstallerView, dd: int, df: int, dl: int, de: int)
    requires
        0 <= dd <= v.dirs.len(),
        0 <= df <= v.files.len(),
        0 <= dl <= v.links.len(),
        0 <= de <= v.envs,
    ensures
        partial_records(v, dd, df, dl, de).total() == dd + df + dl + de,
{
}

} // verus!
