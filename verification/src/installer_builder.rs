//! Sources — a disk subtree filtered by a glob pattern, bound for a
//! destination root — and their resolution into ordered task lists, plus
//! the builder that merges several sources into one installation plan.
//!
//! The tree walk is a state machine driven from outside: the walker names
//! the directory it wants listed, the caller lists it on disk and hands the
//! entries back, and the walker classifies them, emits tasks and descends.
//! The walk keeps an explicit stack of per-directory queues rather than
//! recursing, and a failed listing aborts the whole resolution.

use vstd::prelude::*;

use crate::file_system::{path_bytes, AbsolutePath, FileName, RelativePath};
use crate::installer::{
    views_of_dir_tasks, views_of_file_tasks, write_file_dest, CreateDirectoryTask, Installer,
    WriteFileTask, WriteFileTaskView,
};

verus! {

/// Names whether the glob pattern matches the path text; the outcome is a
/// function of the pattern and the text alone.
pub uninterp spec fn glob_match_of(pattern: Seq<char>, path: Seq<u8>) -> bool;

/// Names whether the glob pattern compiles; a function of the pattern alone.
pub uninterp spec fn glob_pattern_ok(pattern: Seq<char>) -> bool;

/// Relies on glob::Pattern::new and glob::Pattern::matches: whether the
/// pattern compiles, and whether it matches given text, depend only on the
/// pattern and the text. As with glob's own matching of paths, bytes that
/// do not decode as UTF-8 never match.
#[verifier::external_body]
fn glob_match(pattern: &str, path: &Vec<u8>) -> (r: Option<bool>)
    ensures
        (r is Some) == glob_pattern_ok(pattern@),
        r matches Some(m) ==> m == glob_match_of(pattern@, path@),
{
    let compiled = match glob::Pattern::new(pattern) {
        Ok(p) => p,
        Err(_) => return None,
    };
    Some(match core::str::from_utf8(path) {
        Ok(s) => compiled.matches(s),
        Err(_) => false,
    })
}

/// Where a source's content lives: a disk directory, or (a declared but
/// unrealized extension) a location inside an archive. Either carries the
/// glob pattern that filters the entries.
#[derive(Debug)]
pub enum SourcePath {
    Disk(AbsolutePath, String),
    Archive(AbsolutePath, RelativePath, String),
}

/// One declared source: its content location and the destination root its
/// tasks are bound for.
#[derive(Debug)]
pub struct Source {
    pub path: SourcePath,
    pub destination: AbsolutePath,
}

impl Source {
    /// Whether the source reads from a loose disk tree.
    pub open spec fn is_disk(self) -> bool {
        self.path is Disk
    }
}

/// The ordered tasks one source resolves to.
#[derive(Debug)]
pub struct SourceResolveOK {
    pub dir_tasks: Vec<CreateDirectoryTask>,
    pub file_tasks: Vec<WriteFileTask>,
}

/// Why a resolution failed. Resolution never mutates the filesystem, so a
/// failure leaves nothing to undo and no partial task list escapes.
#[derive(Debug, Clone, PartialEq, Eq)]
pub enum SourceResolveErr {
    /// A directory could not be enumerated; carries the directory that
    /// failed to list.
    ReadDir(AbsolutePath),
    /// The source's glob pattern does not compile.
    Pattern,
}

pub type SourceResolveResult = Result<SourceResolveOK, SourceResolveErr>;

/// One listed entry of a directory, as the caller reports it back.
#[derive(Debug, Clone)]
pub struct DirEntry {
    pub name: FileName,
    pub kind: EntryKind,
}

/// How a listed entry classified on disk; anything that is neither a plain
/// file nor a directory is passed over.
#[derive(Debug, Clone, Copy, PartialEq, Eq, Structural)]
pub enum EntryKind {
    File,
    Dir,
    Other,
}

/// The mathematical content of one listed entry.
pub struct DirEntryView {
    pub name: Seq<u8>,
    pub kind: EntryKind,
}

impl View for DirEntry {
    type V = DirEntryView;

    open spec fn view(&self) -> DirEntryView {
        DirEntryView { name: self.name@, kind: self.kind }
    }
}

/// The views of a sequence of listed entries.
pub open spec fn views_of_entries(s: Seq<DirEntry>) -> Seq<DirEntryView> {
    s.map_values(|e: DirEntry| e@)
}

/// The absolute source path of one listed entry.
pub open spec fn entry_abs(root: Seq<Seq<u8>>, fronts: Seq<Seq<u8>>, name: Seq<u8>) -> Seq<
    Seq<u8>,
> {
    root + fronts + seq![name]
}

/// The destination path one listed entry is bound for.
pub open spec fn entry_dest(dest: Seq<Seq<u8>>, fronts: Seq<Seq<u8>>, name: Seq<u8>) -> Seq<
    Seq<u8>,
> {
    dest + fronts + seq![name]
}

/// Whether the pattern matches the entry's full source path text.
pub open spec fn entry_matches(
    pat: Seq<char>,
    root: Seq<Seq<u8>>,
    fronts: Seq<Seq<u8>>,
    name: Seq<u8>,
) -> bool {
    glob_match_of(pat, path_bytes(entry_abs(root, fronts, name)))
}

/// No two entries of one listing share a name, as holds of any real
/// directory listing.
pub open spec fn distinct_entry_names(es: Seq<DirEntryView>) -> bool {
    forall|i: int, j: int| 0 <= i < j < es.len() ==> (#[trigger] es[i]).name != (#[trigger] es[j]).name
}

/// `longer` lies strictly below `shorter`: the shorter path is a proper
/// prefix of the longer one.
pub open spec fn strictly_below(longer: Seq<Seq<u8>>, shorter: Seq<Seq<u8>>) -> bool {
    shorter.len() < longer.len() && longer.take(shorter.len() as int) == shorter
}

/// Executing the emitted tasks in list order — directories first, then
/// files — never targets a missing parent: a directory task strictly below
/// another comes after it, and every task's parent directory is the
/// destination root itself or an emitted directory task.
pub open spec fn plan_parents_ok(
    dirs: Seq<Seq<Seq<u8>>>,
    files: Seq<WriteFileTaskView>,
    dest: Seq<Seq<u8>>,
) -> bool {
    &&& (forall|i: int, j: int|
        0 <= i < dirs.len() && 0 <= j < dirs.len() && #[trigger] strictly_below(dirs[j], dirs[i])
            ==> i < j)
    &&& (forall|i: int|
        0 <= i < dirs.len() ==> (#[trigger] dirs[i]).len() > dest.len() && (dirs[i].drop_last()
            == dest || dirs.contains(dirs[i].drop_last())))
    &&& (forall|i: int|
        0 <= i < files.len() ==> write_file_dest(#[trigger] files[i]).len() > dest.len() && (
        write_file_dest(files[i]).drop_last() == dest || dirs.contains(
            write_file_dest(files[i]).drop_last(),
        )))
}

proof fn lemma_contains_after_push(s: Seq<Seq<Seq<u8>>>, x: Seq<Seq<u8>>, y: Seq<Seq<u8>>)
    requires
        s.contains(x),
    ensures
        s.push(y).contains(x),
{
    let i = choose|i: int| 0 <= i < s.len() && s[i] == x;
    assert(s.push(y)[i] == x);
}

/// The directory-creation task paths that the first `n` entries of one
/// listing contribute: one per matching directory, in listing order.
pub open spec fn emitted_dirs(
    entries: Seq<DirEntryView>,
    n: int,
    pat: Seq<char>,
    root: Seq<Seq<u8>>,
    fronts: Seq<Seq<u8>>,
    dest: Seq<Seq<u8>>,
) -> Seq<Seq<Seq<u8>>>
    decreases n,
{
    if n <= 0 {
        Seq::empty()
    } else {
        let prev = emitted_dirs(entries, n - 1, pat, root, fronts, dest);
        let e = entries[n - 1];
        if e.kind is Dir && entry_matches(pat, root, fronts, e.name) {
            prev.push(entry_dest(dest, fronts, e.name))
        } else {
            prev
        }
    }
}

/// The file-write tasks that the first `n` entries of one listing
/// contribute: one per matching file, in listing order, copying from the
/// entry's source path to its destination path.
pub open spec fn emitted_files(
    entries: Seq<DirEntryView>,
    n: int,
    pat: Seq<char>,
    root: Seq<Seq<u8>>,
    fronts: Seq<Seq<u8>>,
    dest: Seq<Seq<u8>>,
) -> Seq<WriteFileTaskView>
    decreases n,
{
    if n <= 0 {
        Seq::empty()
    } else {
        let prev = emitted_files(entries, n - 1, pat, root, fronts, dest);
        let e = entries[n - 1];
        if e.kind is File && entry_matches(pat, root, fronts, e.name) {
            prev.push(
                WriteFileTaskView::FromPath {
                    from: entry_abs(root, fronts, e.name),
                    to: entry_dest(dest, fronts, e.name),
                },
            )
        } else {
            prev
        }
    }
}

#[derive(Debug)]
enum ResolverPhase {
    Walking,
    Finished,
    Failed,
}

/// The tree walk of one disk source, driven listing by listing. Ask
/// `current_dir` which directory to list, list it, and report the entries
/// (or the failure to list) to `step`; when the walk has finished, `finish`
/// hands out the accumulated tasks.
#[derive(Debug)]
pub struct SourceResolver {
    source_root: AbsolutePath,
    destination: AbsolutePath,
    pattern: String,
    stack: Vec<Vec<FileName>>,
    dir_tasks: Vec<CreateDirectoryTask>,
    file_tasks: Vec<WriteFileTask>,
    phase: ResolverPhase,
}

impl SourceResolver {
    /// The source root being walked.
    pub closed spec fn root_view(self) -> Seq<Seq<u8>> {
        self.source_root@
    }

    /// The destination root the tasks are bound for.
    pub closed spec fn dest_view(self) -> Seq<Seq<u8>> {
        self.destination@
    }

    /// The glob pattern filtering the walk.
    pub closed spec fn pattern_view(self) -> Seq<char> {
        self.pattern@
    }

    /// The relative position of the walk below the source root: the first
    /// queued name of each stack level.
    pub closed spec fn fronts(self) -> Seq<Seq<u8>> {
        Seq::new(self.stack@.len(), |i: int| self.stack@[i]@[0]@)
    }

    /// The directory-creation task paths accumulated so far.
    pub closed spec fn dir_task_views(self) -> Seq<Seq<Seq<u8>>> {
        views_of_dir_tasks(self.dir_tasks@)
    }

    /// The file-write tasks accumulated so far.
    pub closed spec fn file_task_views(self) -> Seq<WriteFileTaskView> {
        views_of_file_tasks(self.file_tasks@)
    }

    /// The walk still wants a listing.
    pub closed spec fn active(self) -> bool {
        self.phase is Walking
    }

    /// The walk has exhausted the tree.
    pub closed spec fn finished(self) -> bool {
        self.phase is Finished
    }

    /// Every stack level still has its current directory queued.
    pub closed spec fn frames_ok(self) -> bool {
        forall|i: int| 0 <= i < self.stack@.len() ==> (#[trigger] self.stack@[i])@.len() > 0
    }

    /// The directory the walk is currently inside.
    pub open spec fn current_dir_view(self) -> Seq<Seq<u8>> {
        self.root_view() + self.fronts()
    }

    /// The destination-side path of the k-th queued name at stack level i.
    pub closed spec fn queued_dest(self, i: int, k: int) -> Seq<Seq<u8>> {
        self.dest_view() + self.fronts().take(i) + seq![self.stack@[i]@[k]@]
    }

    /// How the emitted tasks relate to the walk frontier while the walk is
    /// still going: every queued directory already has its task emitted;
    /// names queued at one level are pairwise distinct; and no emitted
    /// task lies strictly below the position awaiting its listing, nor
    /// below any queued-but-not-yet-visited sibling.
    pub closed spec fn frontier_ok(self) -> bool {
        &&& (forall|i: int, k: int|
            0 <= i < self.stack@.len() && 0 <= k < self.stack@[i]@.len()
                ==> self.dir_task_views().contains(#[trigger] self.queued_dest(i, k)))
        &&& (forall|i: int, k: int, k2: int|
            0 <= i < self.stack@.len() && 0 <= k < k2 < self.stack@[i]@.len() ==> (
            #[trigger] self.stack@[i]@[k])@ != (#[trigger] self.stack@[i]@[k2])@)
        &&& (forall|i: int, k: int, t: int|
            0 <= i < self.stack@.len() && 1 <= k < self.stack@[i]@.len() && 0 <= t
                < self.dir_task_views().len() ==> !(#[trigger] strictly_below(
                self.dir_task_views()[t],
                self.queued_dest(i, k),
            )))
        &&& (forall|t: int|
            0 <= t < self.dir_task_views().len() ==> !strictly_below(
                #[trigger] self.dir_task_views()[t],
                self.dest_view() + self.fronts(),
            ))
    }

    /// The walk's invariant: its pattern compiles, every task it has
    /// emitted is bound inside the destination root, the emitted lists are
    /// parent-before-child ordered, and while the walk is active its
    /// frontier stays ahead of everything emitted.
    pub open spec fn wf(self) -> bool {
        &&& glob_pattern_ok(self.pattern_view())
        &&& self.frames_ok()
        &&& (forall|i: int|
            0 <= i < self.dir_task_views().len() ==> self.dest_view().is_prefix_of(
                #[trigger] self.dir_task_views()[i],
            ))
        &&& (forall|i: int|
            0 <= i < self.file_task_views().len() ==> self.dest_view().is_prefix_of(
                write_file_dest(#[trigger] self.file_task_views()[i]),
            ))
        &&& plan_parents_ok(self.dir_task_views(), self.file_task_views(), self.dest_view())
        &&& (self.active() ==> self.frontier_ok())
    }

    /// Starts the walk of a disk source at its root, with no tasks emitted
    /// yet; rejected exactly when the source's pattern does not compile.
    pub fn new(source: &Source) -> (r: Result<Self, SourceResolveErr>)
        requires
            source.is_disk(),
        ensures
            r is Ok <==> glob_pattern_ok(source_pattern(*source)),
            r matches Ok(res) ==> res.wf() && res.active() && res.root_view() == source_root_view(
                *source,
            ) && res.dest_view() == source.destination@ && res.pattern_view() == source_pattern(
                *source,
            ) && res.fronts() == Seq::<Seq<u8>>::empty() && res.dir_task_views() == Seq::<
                Seq<Seq<u8>>,
            >::empty() && res.file_task_views() == Seq::<WriteFileTaskView>::empty(),
            r matches Err(e) ==> e == SourceResolveErr::Pattern,
    {
        match &source.path {
            SourcePath::Disk(root, pattern) => {
                let probe: Vec<u8> = Vec::new();
                if glob_match(pattern.as_str(), &probe).is_none() {
                    return Err(SourceResolveErr::Pattern);
                }
                let res = SourceResolver {
                    source_root: root.duplicate(),
                    destination: source.destination.duplicate(),
                    pattern: pattern.clone(),
                    stack: Vec::new(),
                    dir_tasks: Vec::new(),
                    file_tasks: Vec::new(),
                    phase: ResolverPhase::Walking,
                };
                proof {
                    assert(res.fronts() =~= Seq::<Seq<u8>>::empty());
                    assert(res.dir_task_views() =~= Seq::<Seq<Seq<u8>>>::empty());
                    assert(res.file_task_views() =~= Seq::<WriteFileTaskView>::empty());
                }
                Ok(res)
            },
            SourcePath::Archive(_, _, _) => {
                proof {
                    assert(false);
                }
                Err(SourceResolveErr::Pattern)
            },
        }
    }

    /// Builds the absolute form of the directory the walk is inside.
    fn current_dir_path(&self) -> (r: AbsolutePath)
        requires
            self.wf(),
        ensures
            r@ == self.current_dir_view(),
    {
        let mut p = self.source_root.duplicate();
        let mut i: usize = 0;
        proof {
            assert(p@ =~= self.root_view() + self.fronts().take(0));
        }
        while i < self.stack.len()
            invariant
                0 <= i <= self.stack@.len(),
                self.wf(),
                self.fronts().len() == self.stack@.len(),
                p@ == self.root_view() + self.fronts().take(i as int),
            decreases self.stack@.len() - i,
        {
            let frame = &self.stack[i];
            proof {
                assert(frame@.len() > 0);
            }
            let name = frame[0].duplicate();
            p.push(name);
            proof {
                assert(self.fronts()[i as int] == self.stack@[i as int]@[0]@);
                assert(p@ =~= self.root_view() + self.fronts().take(i + 1));
            }
            i = i + 1;
        }
        proof {
            assert(self.fronts().take(self.stack@.len() as int) =~= self.fronts());
        }
        p
    }

    /// The directory whose listing the walk wants next, or nothing once it
    /// is over.
    pub fn current_dir(&self) -> (r: Option<AbsolutePath>)
        requires
            self.wf(),
        ensures
            self.active() ==> (r matches Some(p) && p@ == self.current_dir_view()),
            !self.active() ==> r is None,
    {
        match self.phase {
            ResolverPhase::Walking => Some(self.current_dir_path()),
            ResolverPhase::Finished => None,
            ResolverPhase::Failed => None,
        }
    }

    /// Feeds the walk one listing of its current directory, or reports that
    /// the directory could not be listed. On a listing, every matching
    /// entry contributes its task in listing order — files copy into the
    /// destination, directories are created there and queued for descent —
    /// and the walk moves to the next directory, finishing once the stack
    /// is exhausted. On a failed listing the walk aborts with an error
    /// naming the directory.
    #[verifier::loop_isolation(false)]
    #[verifier::rlimit(100)]
    pub fn step(&mut self, listing: Option<Vec<DirEntry>>) -> (r: Result<bool, SourceResolveErr>)
        requires
            old(self).wf(),
            old(self).active(),
            listing matches Some(entries) ==> distinct_entry_names(views_of_entries(entries@)),
        ensures
            final(self).wf(),
            final(self).root_view() == old(self).root_view(),
            final(self).dest_view() == old(self).dest_view(),
            final(self).pattern_view() == old(self).pattern_view(),
            listing matches Some(entries) ==> {
                &&& r is Ok
                &&& final(self).dir_task_views() == old(self).dir_task_views() + emitted_dirs(
                    views_of_entries(entries@),
                    entries@.len() as int,
                    old(self).pattern_view(),
                    old(self).root_view(),
                    old(self).fronts(),
                    old(self).dest_view(),
                )
                &&& final(self).file_task_views() == old(self).file_task_views() + emitted_files(
                    views_of_entries(entries@),
                    entries@.len() as int,
                    old(self).pattern_view(),
                    old(self).root_view(),
                    old(self).fronts(),
                    old(self).dest_view(),
                )
                &&& (r == Result::<bool, SourceResolveErr>::Ok(true) ==> final(self).active())
                &&& (r == Result::<bool, SourceResolveErr>::Ok(false) ==> final(self).finished())
            },
            listing is None ==> {
                &&& (r matches Err(e) && e is ReadDir && e->ReadDir_0@ == old(
                    self,
                ).current_dir_view())
                &&& !final(self).active() && !final(self).finished()
                &&& final(self).dir_task_views() == old(self).dir_task_views()
                &&& final(self).file_task_views() == old(self).file_task_views()
            },
    {
        let entries = match listing {
            Some(entries) => entries,
            None => {
                let here = self.current_dir_path();
                self.phase = ResolverPhase::Failed;
                proof {
                    assert(self.dir_task_views() == old(self).dir_task_views());
                    assert(self.file_task_views() == old(self).file_task_views());
                    assert(self.frames_ok());
                    assert(glob_pattern_ok(self.pattern_view()));
                }
                return Err(SourceResolveErr::ReadDir(here));
            },
        };
        let ghost pat = self.pattern@;
        let ghost root = self.root_view();
        let ghost fronts0 = self.fronts();
        let ghost dest = self.dest_view();
        let cur_abs = self.current_dir_path();
        let mut dest_cur = self.destination.duplicate();
        {
            let mut k: usize = 0;
            proof {
                assert(dest_cur@ =~= dest + fronts0.take(0));
            }
            while k < self.stack.len()
                invariant
                    0 <= k <= self.stack@.len(),
                    self.wf(),
                    self.fronts() == fronts0,
                    dest == self.dest_view(),
                    self.fronts().len() == self.stack@.len(),
                    dest_cur@ == dest + fronts0.take(k as int),
                decreases self.stack@.len() - k,
            {
                let frame = &self.stack[k];
                proof {
                    assert(frame@.len() > 0);
                }
                dest_cur.push(frame[0].duplicate());
                proof {
                    assert(dest_cur@ =~= dest + fronts0.take(k + 1));
                }
                k = k + 1;
            }
            proof {
                assert(fronts0.take(self.stack@.len() as int) =~= fronts0);
            }
        }
        let mut queued: Vec<FileName> = Vec::new();
        let mut i: usize = 0;
        let ghost eviews = views_of_entries(entries@);
        let ghost dirs0 = self.dir_task_views();
        let ghost files0 = self.file_task_views();
        while i < entries.len()
            invariant
                0 <= i <= entries@.len(),
                eviews == views_of_entries(entries@),
                eviews.len() == entries@.len(),
                glob_pattern_ok(pat),
                pat == self.pattern@,
                root == self.root_view(),
                dest == self.dest_view(),
                fronts0 == self.fronts(),
                self.frames_ok(),
                cur_abs@ == root + fronts0,
                dest_cur@ == dest + fronts0,
                self.dir_task_views() == dirs0 + emitted_dirs(eviews, i as int, pat, root, fronts0, dest),
                self.file_task_views() == files0 + emitted_files(
                    eviews,
                    i as int,
                    pat,
                    root,
                    fronts0,
                    dest,
                ),
                forall|j: int|
                    0 <= j < self.dir_task_views().len() ==> self.dest_view().is_prefix_of(
                        #[trigger] self.dir_task_views()[j],
                    ),
                forall|j: int|
                    0 <= j < self.file_task_views().len() ==> self.dest_view().is_prefix_of(
                        write_file_dest(#[trigger] self.file_task_views()[j]),
                    ),
                self.phase is Walking,
                self.stack@ == old(self).stack@,
                distinct_entry_names(eviews),
                plan_parents_ok(self.dir_task_views(), self.file_task_views(), dest),
                dirs0.len() <= self.dir_task_views().len(),
                forall|t: int|
                    dirs0.len() <= t < self.dir_task_views().len() ==> (
                    #[trigger] self.dir_task_views()[t]).len() == dest.len() + fronts0.len() + 1
                        && self.dir_task_views()[t].take((dest.len() + fronts0.len()) as int)
                        == dest + fronts0,
                forall|t: int| 0 <= t < dirs0.len() ==> self.dir_task_views()[t] == dirs0[t],
                forall|t: int|
                    0 <= t < dirs0.len() ==> !strictly_below(#[trigger] dirs0[t], dest + fronts0),
                forall|i2: int, k: int|
                    0 <= i2 < self.stack@.len() && 0 <= k < self.stack@[i2]@.len()
                        ==> self.dir_task_views().contains(#[trigger] self.queued_dest(i2, k)),
                forall|i2: int, k: int, k2: int|
                    0 <= i2 < self.stack@.len() && 0 <= k < k2 < self.stack@[i2]@.len() ==> (
                    #[trigger] self.stack@[i2]@[k])@ != (#[trigger] self.stack@[i2]@[k2])@,
                forall|i2: int, k: int, t: int|
                    0 <= i2 < self.stack@.len() && 1 <= k < self.stack@[i2]@.len() && 0 <= t
                        < self.dir_task_views().len() ==> !(#[trigger] strictly_below(
                        self.dir_task_views()[t],
                        self.queued_dest(i2, k),
                    )),
                forall|k: int|
                    0 <= k < queued@.len() ==> self.dir_task_views().contains(
                        dest + fronts0 + seq![(#[trigger] queued@[k])@],
                    ),
                forall|k: int, k2: int|
                    0 <= k < k2 < queued@.len() ==> (#[trigger] queued@[k])@ != (
                    #[trigger] queued@[k2])@,
                forall|k: int| #![trigger queued@[k]]
                    0 <= k < queued@.len() ==> exists|j: int|
                        0 <= j < i && (#[trigger] eviews[j]).name == queued@[k]@,
            decreases entries@.len() - i,
        {
            let entry = &entries[i];
            let ghost ev = eviews[i as int];
            proof {
                assert(ev == entry@);
            }
            let mut abs = cur_abs.duplicate();
            abs.push(entry.name.duplicate());
            proof {
                assert(abs@ =~= entry_abs(root, fronts0, ev.name));
            }
            let bytes = abs.to_bytes();
            let matched = match glob_match(self.pattern.as_str(), &bytes) {
                Some(m) => m,
                None => {
                    return Err(SourceResolveErr::Pattern);
                },
            };
            if matched {
                match entry.kind {
                    EntryKind::File => {
                        let mut to = dest_cur.duplicate();
                        to.push(entry.name.duplicate());
                        proof {
                            assert(to@ =~= entry_dest(dest, fronts0, ev.name));
                        }
                        let ghost before = self.file_tasks@;
                        let ghost t = entry_dest(dest, fronts0, ev.name);
                        let ghost pre_self = *self;
                        proof {
                            // The new file's parent directory is the
                            // destination root or an already-emitted
                            // directory task.
                            assert(t.len() == dest.len() + fronts0.len() + 1);
                            assert(t.drop_last() =~= dest + fronts0);
                            if fronts0.len() > 0 {
                                let last = self.stack@.len() - 1;
                                assert(self.queued_dest(last, 0) =~= dest + fronts0);
                                assert(self.dir_task_views().contains(t.drop_last()));
                            } else {
                                assert(t.drop_last() =~= dest);
                            }
                        }
                        let task = WriteFileTask::FromPath { from: abs, to };
                        self.file_tasks.push(task);
                        proof {
                            assert(views_of_file_tasks(self.file_tasks@) =~= views_of_file_tasks(
                                before,
                            ).push(
                                WriteFileTaskView::FromPath {
                                    from: entry_abs(root, fronts0, ev.name),
                                    to: t,
                                },
                            ));
                            assert(dest.is_prefix_of(t)) by {
                                assert(t.take(dest.len() as int) =~= dest);
                            }
                            let files_now = self.file_task_views();
                            assert(write_file_dest(files_now[files_now.len() - 1]) == t);
                            assert(plan_parents_ok(self.dir_task_views(), files_now, dest));
                            assert forall|i2: int, k: int|
                                0 <= i2 < self.stack@.len() && 0 <= k < self.stack@[i2]@.len()
                                    implies self.dir_task_views().contains(
                                #[trigger] self.queued_dest(i2, k),
                            ) by {
                                assert(self.queued_dest(i2, k) == pre_self.queued_dest(i2, k));
                                assert(pre_self.dir_task_views().contains(
                                    pre_self.queued_dest(i2, k),
                                ));
                            }
                            assert forall|i2: int, k: int, t2: int|
                                0 <= i2 < self.stack@.len() && 1 <= k < self.stack@[i2]@.len() && 0
                                    <= t2 < self.dir_task_views().len() implies !(
                            #[trigger] strictly_below(
                                self.dir_task_views()[t2],
                                self.queued_dest(i2, k),
                            )) by {
                                assert(self.queued_dest(i2, k) == pre_self.queued_dest(i2, k));
                                assert(!strictly_below(
                                    pre_self.dir_task_views()[t2],
                                    pre_self.queued_dest(i2, k),
                                ));
                            }
                        }
                    },
                    EntryKind::Dir => {
                        let mut to = dest_cur.duplicate();
                        to.push(entry.name.duplicate());
                        proof {
                            assert(to@ =~= entry_dest(dest, fronts0, ev.name));
                        }
                        let ghost before = self.dir_tasks@;
                        let ghost dirs_pre = self.dir_task_views();
                        let ghost files_pre = self.file_task_views();
                        let ghost queued_pre = queued@;
                        let ghost t = entry_dest(dest, fronts0, ev.name);
                        proof {
                            assert(t.len() == dest.len() + fronts0.len() + 1);
                            assert(t.take((dest.len() + fronts0.len()) as int) =~= dest + fronts0);
                            assert(t.drop_last() =~= dest + fronts0);
                            // Nothing already emitted lies strictly below the
                            // new task: older tasks stay above the position
                            // being listed, tasks of this listing are its
                            // siblings.
                            assert forall|j: int|
                                0 <= j < dirs_pre.len() implies !strictly_below(
                                dirs_pre[j],
                                t,
                            ) by {
                                if strictly_below(dirs_pre[j], t) {
                                    assert(dirs_pre[j].take((dest.len() + fronts0.len()) as int)
                                        =~= dest + fronts0);
                                    assert(strictly_below(dirs_pre[j], dest + fronts0));
                                    if j < dirs0.len() {
                                        assert(dirs0[j] == dirs_pre[j]);
                                    }
                                }
                            }
                            // The parent of the new task is already there.
                            if fronts0.len() > 0 {
                                let last = self.stack@.len() - 1;
                                assert(self.queued_dest(last, 0) =~= dest + fronts0);
                                assert(dirs_pre.contains(dest + fronts0));
                            }
                        }
                        let ghost pre_self = *self;
                        let task = CreateDirectoryTask::new(to);
                        self.dir_tasks.push(task);
                        let dup = entry.name.duplicate();
                        let ghost dup_snapshot = dup;
                        queued.push(dup);
                        proof {
                            assert(views_of_dir_tasks(self.dir_tasks@) =~= views_of_dir_tasks(
                                before,
                            ).push(t));
                            let dirs_now = self.dir_task_views();
                            assert(dirs_now == dirs_pre.push(t));
                            assert(dest.is_prefix_of(t)) by {
                                assert(t.take(dest.len() as int) =~= dest);
                            }
                            assert(dirs_now[dirs_now.len() - 1] == t);
                            // Earlier parents stay found after the append.
                            assert forall|x: Seq<Seq<u8>>|
                                dirs_pre.contains(x) implies dirs_now.contains(x) by {
                                lemma_contains_after_push(dirs_pre, x, t);
                            }
                            assert(plan_parents_ok(dirs_now, files_pre, dest)) by {
                                assert forall|a: int, b: int|
                                    0 <= a < dirs_now.len() && 0 <= b < dirs_now.len()
                                        && #[trigger] strictly_below(
                                        dirs_now[b],
                                        dirs_now[a],
                                    ) implies a < b by {
                                    if a == dirs_now.len() - 1 {
                                        assert(!strictly_below(dirs_pre[b], t));
                                    }
                                }
                                assert forall|a: int|
                                    0 <= a < dirs_now.len() implies (
                                #[trigger] dirs_now[a]).len() > dest.len() && (
                                dirs_now[a].drop_last() == dest || dirs_now.contains(
                                    dirs_now[a].drop_last(),
                                )) by {
                                    if a < dirs_pre.len() {
                                        assert(dirs_pre[a].len() > dest.len());
                                    } else {
                                        assert(dirs_now[a] == t);
                                        if fronts0.len() > 0 {
                                            assert(dirs_now.contains(t.drop_last()));
                                        } else {
                                            assert(t.drop_last() =~= dest);
                                        }
                                    }
                                }
                            }
                            // The new task is no ancestor of any queued
                            // sibling position: their last components differ
                            // by frame distinctness.
                            assert forall|i2: int, k: int, u: int|
                                0 <= i2 < self.stack@.len() && 1 <= k < self.stack@[i2]@.len() && 0
                                    <= u < dirs_now.len() implies !(#[trigger] strictly_below(
                                dirs_now[u],
                                self.queued_dest(i2, k),
                            )) by {
                                if u == dirs_now.len() - 1 {
                                    if strictly_below(t, self.queued_dest(i2, k)) {
                                        assert(t.take(dest.len() + i2 + 1) =~= dest
                                            + fronts0.take(i2) + seq![fronts0[i2]]);
                                        assert(fronts0[i2] == self.stack@[i2]@[0]@);
                                        assert((dest + fronts0.take(i2) + seq![fronts0[i2]])[dest.len()
                                            + i2] == fronts0[i2]);
                                        assert(self.queued_dest(i2, k)[dest.len() + i2]
                                            == self.stack@[i2]@[k]@);
                                    }
                                } else {
                                    assert(self.queued_dest(i2, k) == pre_self.queued_dest(
                                        i2,
                                        k,
                                    ));
                                    assert(!strictly_below(
                                        pre_self.dir_task_views()[u],
                                        pre_self.queued_dest(i2, k),
                                    ));
                                }
                            }
                            assert forall|i2: int, k: int|
                                0 <= i2 < self.stack@.len() && 0 <= k < self.stack@[i2]@.len()
                                    implies self.dir_task_views().contains(
                                #[trigger] self.queued_dest(i2, k),
                            ) by {
                                assert(self.queued_dest(i2, k) == pre_self.queued_dest(i2, k));
                                assert(pre_self.dir_task_views().contains(
                                    pre_self.queued_dest(i2, k),
                                ));
                                lemma_contains_after_push(
                                    dirs_pre,
                                    pre_self.queued_dest(i2, k),
                                    t,
                                );
                            }
                            // The new name was not queued before, so the
                            // queue stays duplicate-free.
                            assert forall|k: int|
                                0 <= k < queued_pre.len() implies queued_pre[k]@ != ev.name by {
                                let j = choose|j: int|
                                    0 <= j < i && (#[trigger] eviews[j]).name == queued_pre[k]@;
                                assert(eviews[j].name != eviews[i as int].name);
                            }
                            assert(queued@ == queued_pre.push(dup_snapshot));
                            assert(dup_snapshot@ == ev.name);
                            assert(dirs_now.contains(dest + fronts0 + seq![ev.name])) by {
                                assert(dest + fronts0 + seq![ev.name] =~= t);
                            }
                            assert forall|k: int| #![trigger queued@[k]]
                                0 <= k < queued@.len() implies dirs_now.contains(
                                dest + fronts0 + seq![queued@[k]@],
                            ) by {
                                if k < queued_pre.len() {
                                    assert(dirs_pre.contains(
                                        dest + fronts0 + seq![queued_pre[k]@],
                                    ));
                                    lemma_contains_after_push(
                                        dirs_pre,
                                        dest + fronts0 + seq![queued_pre[k]@],
                                        t,
                                    );
                                    assert(queued@[k] == queued_pre[k]);
                                } else {
                                    assert(queued@[k]@ == ev.name);
                                }
                            }
                            assert forall|k: int| #![trigger queued@[k]]
                                0 <= k < queued@.len() implies exists|j: int|
                                    0 <= j < i + 1 && (#[trigger] eviews[j]).name
                                        == queued@[k]@ by {
                                if k < queued_pre.len() {
                                    let j = choose|j: int|
                                        0 <= j < i && (#[trigger] eviews[j]).name
                                            == queued_pre[k]@;
                                    assert(0 <= j < i + 1 && eviews[j].name == queued@[k]@);
                                } else {
                                    assert(eviews[i as int].name == queued@[k]@);
                                }
                            }
                        }
                    },
                    EntryKind::Other => {
                    },
                }
            }
            i = i + 1;
        }
        proof {
            assert(fronts0.take(self.stack@.len() as int) =~= fronts0);
            // Every queued-candidate position is ahead of everything
            // emitted: older tasks stay above the just-listed position,
            // this listing's tasks are the candidates' siblings.
            assert forall|k: int, t: int|
                0 <= k < queued@.len() && 0 <= t < self.dir_task_views().len() implies !(
            #[trigger] strictly_below(
                self.dir_task_views()[t],
                dest + self.fronts() + seq![queued@[k]@],
            )) by {
                let p = dest + fronts0 + seq![queued@[k]@];
                if strictly_below(self.dir_task_views()[t], p) {
                    let d = self.dir_task_views()[t];
                    assert(d.take((dest.len() + fronts0.len()) as int) =~= dest + fronts0);
                    assert(strictly_below(d, dest + fronts0));
                    if t < dirs0.len() {
                        assert(dirs0[t] == d);
                    }
                }
            }
        }
        // Descend into the first queued subdirectory, or pop completed
        // levels to ascend; the walk ends when the stack empties.
        loop
            invariant
                self.frames_ok(),
                glob_pattern_ok(self.pattern_view()),
                self.phase is Walking,
                self.dir_task_views() == dirs0 + emitted_dirs(
                    eviews,
                    eviews.len() as int,
                    pat,
                    root,
                    fronts0,
                    dest,
                ),
                self.file_task_views() == files0 + emitted_files(
                    eviews,
                    eviews.len() as int,
                    pat,
                    root,
                    fronts0,
                    dest,
                ),
                root == self.root_view(),
                dest == self.dest_view(),
                pat == self.pattern_view(),
                forall|j: int|
                    0 <= j < self.dir_task_views().len() ==> self.dest_view().is_prefix_of(
                        #[trigger] self.dir_task_views()[j],
                    ),
                forall|j: int|
                    0 <= j < self.file_task_views().len() ==> self.dest_view().is_prefix_of(
                        write_file_dest(#[trigger] self.file_task_views()[j]),
                    ),
                plan_parents_ok(self.dir_task_views(), self.file_task_views(), dest),
                self.stack@.len() <= fronts0.len(),
                self.fronts() == fronts0.take(self.stack@.len() as int),
                forall|i2: int, k: int|
                    0 <= i2 < self.stack@.len() && 0 <= k < self.stack@[i2]@.len()
                        ==> self.dir_task_views().contains(#[trigger] self.queued_dest(i2, k)),
                forall|i2: int, k: int, k2: int|
                    0 <= i2 < self.stack@.len() && 0 <= k < k2 < self.stack@[i2]@.len() ==> (
                    #[trigger] self.stack@[i2]@[k])@ != (#[trigger] self.stack@[i2]@[k2])@,
                forall|i2: int, k: int, t: int|
                    0 <= i2 < self.stack@.len() && 1 <= k < self.stack@[i2]@.len() && 0 <= t
                        < self.dir_task_views().len() ==> !(#[trigger] strictly_below(
                        self.dir_task_views()[t],
                        self.queued_dest(i2, k),
                    )),
                forall|k: int|
                    0 <= k < queued@.len() ==> self.dir_task_views().contains(
                        dest + self.fronts() + seq![(#[trigger] queued@[k])@],
                    ),
                forall|k: int, k2: int|
                    0 <= k < k2 < queued@.len() ==> (#[trigger] queued@[k])@ != (
                    #[trigger] queued@[k2])@,
                forall|k: int, t: int|
                    0 <= k < queued@.len() && 0 <= t < self.dir_task_views().len()
                        ==> !(#[trigger] strictly_below(
                        self.dir_task_views()[t],
                        dest + self.fronts() + seq![queued@[k]@],
                    )),
            decreases self.stack@.len(),
        {
            if queued.len() > 0 {
                let ghost pre_self = *self;
                let ghost pre_fronts = self.fronts();
                let ghost qv = queued@;
                self.stack.push(queued);
                proof {
                    assert forall|j: int| 0 <= j < self.stack@.len() implies (
                    #[trigger] self.stack@[j])@.len() > 0 by {}
                    let m = pre_self.stack@.len() as int;
                    assert(self.fronts() =~= pre_fronts.push(qv[0]@));
                    assert forall|i2: int, k: int|
                        0 <= i2 < self.stack@.len() && 0 <= k < self.stack@[i2]@.len()
                            implies self.dir_task_views().contains(
                        #[trigger] self.queued_dest(i2, k),
                    ) by {
                        if i2 < m {
                            assert(pre_self.dir_task_views().contains(
                                pre_self.queued_dest(i2, k),
                            ));
                            assert(self.queued_dest(i2, k) =~= pre_self.queued_dest(i2, k));
                        } else {
                            assert(self.queued_dest(i2, k) =~= dest + pre_fronts + seq![qv[k]@]);
                        }
                    }
                    assert forall|i2: int, k: int, t: int|
                        0 <= i2 < self.stack@.len() && 1 <= k < self.stack@[i2]@.len() && 0 <= t
                            < self.dir_task_views().len() implies !(#[trigger] strictly_below(
                        self.dir_task_views()[t],
                        self.queued_dest(i2, k),
                    )) by {
                        if i2 < m {
                            assert(!strictly_below(
                                pre_self.dir_task_views()[t],
                                pre_self.queued_dest(i2, k),
                            ));
                            assert(self.queued_dest(i2, k) =~= pre_self.queued_dest(i2, k));
                        } else {
                            assert(self.queued_dest(i2, k) =~= dest + pre_fronts + seq![qv[k]@]);
                        }
                    }
                    assert forall|t: int|
                        0 <= t < self.dir_task_views().len() implies !strictly_below(
                        #[trigger] self.dir_task_views()[t],
                        self.dest_view() + self.fronts(),
                    ) by {
                        assert(dest + self.fronts() =~= dest + pre_fronts + seq![qv[0]@]);
                    }
                    assert(self.frontier_ok());
                }
                return Ok(true);
            }
            let ghost pre_self = *self;
            let ghost pre_fronts = self.fronts();
            match self.stack.pop() {
                Some(mut frame) => {
                    proof {
                        assert(frame@.len() > 0);
                    }
                    let ghost pre_frame = frame@;
                    frame.remove(0);
                    queued = frame;
                    proof {
                        let m = pre_self.stack@.len() as int;
                        assert(self.stack@ =~= pre_self.stack@.drop_last());
                        assert(self.fronts() =~= pre_fronts.take(m - 1));
                        assert(self.fronts() =~= fronts0.take(m - 1)) by {
                            assert(fronts0.take(m).take(m - 1) =~= fronts0.take(m - 1));
                        }
                        assert(frame@ =~= pre_frame.remove(0));
                        assert forall|k: int|
                            0 <= k < queued@.len() implies queued@[k] == pre_frame[k + 1] by {
                            assert(pre_frame.remove(0)[k] == pre_frame[k + 1]);
                        }
                        assert forall|i2: int, k: int|
                            0 <= i2 < self.stack@.len() && 0 <= k < self.stack@[i2]@.len()
                                implies self.dir_task_views().contains(
                            #[trigger] self.queued_dest(i2, k),
                        ) by {
                            assert(pre_self.dir_task_views().contains(
                                pre_self.queued_dest(i2, k),
                            ));
                            assert(self.queued_dest(i2, k) =~= pre_self.queued_dest(i2, k));
                        }
                        assert forall|i2: int, k: int, t: int|
                            0 <= i2 < self.stack@.len() && 1 <= k < self.stack@[i2]@.len() && 0
                                <= t < self.dir_task_views().len() implies !(
                        #[trigger] strictly_below(
                            self.dir_task_views()[t],
                            self.queued_dest(i2, k),
                        )) by {
                            assert(!strictly_below(
                                pre_self.dir_task_views()[t],
                                pre_self.queued_dest(i2, k),
                            ));
                            assert(self.queued_dest(i2, k) =~= pre_self.queued_dest(i2, k));
                        }
                        // What was queued behind the finished directory
                        // keeps its emitted tasks and its freshness, one
                        // position up.
                        assert forall|k: int|
                            0 <= k < queued@.len() implies self.dir_task_views().contains(
                            dest + self.fronts() + seq![(#[trigger] queued@[k])@],
                        ) by {
                            assert(pre_self.dir_task_views().contains(
                                pre_self.queued_dest(m - 1, k + 1),
                            ));
                            assert(dest + self.fronts() + seq![queued@[k]@]
                                =~= pre_self.queued_dest(m - 1, k + 1));
                        }
                        assert forall|k: int, t: int|
                            0 <= k < queued@.len() && 0 <= t < self.dir_task_views().len()
                                implies !(#[trigger] strictly_below(
                            self.dir_task_views()[t],
                            dest + self.fronts() + seq![queued@[k]@],
                        )) by {
                            assert(!strictly_below(
                                pre_self.dir_task_views()[t],
                                pre_self.queued_dest(m - 1, k + 1),
                            ));
                            assert(dest + self.fronts() + seq![queued@[k]@]
                                =~= pre_self.queued_dest(m - 1, k + 1));
                        }
                    }
                },
                None => {
                    self.phase = ResolverPhase::Finished;
                    return Ok(false);
                },
            }
        }
    }

    /// Hands out the accumulated tasks once the walk has finished: the
    /// matching directories and files of the whole tree, in walk order,
    /// every destination inside the destination root.
    pub fn finish(self) -> (r: SourceResolveOK)
        requires
            self.wf(),
            self.finished(),
        ensures
            views_of_dir_tasks(r.dir_tasks@) == self.dir_task_views(),
            views_of_file_tasks(r.file_tasks@) == self.file_task_views(),
            forall|i: int|
                0 <= i < self.dir_task_views().len() ==> self.dest_view().is_prefix_of(
                    #[trigger] self.dir_task_views()[i],
                ),
            forall|i: int|
                0 <= i < self.file_task_views().len() ==> self.dest_view().is_prefix_of(
                    write_file_dest(#[trigger] self.file_task_views()[i]),
                ),
            plan_parents_ok(self.dir_task_views(), self.file_task_views(), self.dest_view()),
    {
        SourceResolveOK { dir_tasks: self.dir_tasks, file_tasks: self.file_tasks }
    }
}

/// The mathematical content of a source location.
pub enum SourcePathView {
    Disk(Seq<Seq<u8>>, Seq<char>),
    Archive(Seq<Seq<u8>>, Seq<crate::file_system::PathComponentView>, Seq<char>),
}

impl View for SourcePath {
    type V = SourcePathView;

    open spec fn view(&self) -> SourcePathView {
        match self {
            SourcePath::Disk(root, pat) => SourcePathView::Disk(root@, pat@),
            SourcePath::Archive(root, rel, pat) => SourcePathView::Archive(root@, rel@, pat@),
        }
    }
}

/// The mathematical content of a declared source.
pub struct SourceView {
    pub path: SourcePathView,
    pub destination: Seq<Seq<u8>>,
}

impl View for Source {
    type V = SourceView;

    open spec fn view(&self) -> SourceView {
        SourceView { path: self.path@, destination: self.destination@ }
    }
}

/// The mathematical content of one source's resolution.
pub struct ResolvedView {
    pub dirs: Seq<Seq<Seq<u8>>>,
    pub files: Seq<WriteFileTaskView>,
}

impl View for SourceResolveOK {
    type V = ResolvedView;

    open spec fn view(&self) -> ResolvedView {
        ResolvedView {
            dirs: views_of_dir_tasks(self.dir_tasks@),
            files: views_of_file_tasks(self.file_tasks@),
        }
    }
}

/// The views of a sequence of declared sources.
pub open spec fn views_of_sources(s: Seq<Source>) -> Seq<SourceView> {
    s.map_values(|x: Source| x@)
}

/// The views of a sequence of absolute paths.
pub open spec fn views_of_paths(s: Seq<AbsolutePath>) -> Seq<Seq<Seq<u8>>> {
    s.map_values(|p: AbsolutePath| p@)
}

/// The views of a sequence of resolutions.
pub open spec fn views_of_resolved(s: Seq<SourceResolveOK>) -> Seq<ResolvedView> {
    s.map_values(|x: SourceResolveOK| x@)
}

/// The directory tasks of the first `n` resolutions, in source order.
pub open spec fn merged_dirs(rs: Seq<ResolvedView>, n: int) -> Seq<Seq<Seq<u8>>>
    decreases n,
{
    if n <= 0 {
        Seq::empty()
    } else {
        merged_dirs(rs, n - 1) + rs[n - 1].dirs
    }
}

/// The file tasks of the first `n` resolutions, in source order.
pub open spec fn merged_files(rs: Seq<ResolvedView>, n: int) -> Seq<WriteFileTaskView>
    decreases n,
{
    if n <= 0 {
        Seq::empty()
    } else {
        merged_files(rs, n - 1) + rs[n - 1].files
    }
}

/// Why a build failed: one of its sources failed to resolve. The whole
/// build fails with that source's error and no partial plan escapes.
#[derive(Debug, Clone, PartialEq, Eq)]
pub enum BuildError {
    SourceError(SourceResolveErr),
}

pub type BuildResult = Result<Installer, BuildError>;

/// Whether every resolution outcome succeeded.
pub open spec fn all_resolved(rs: Seq<SourceResolveResult>) -> bool {
    forall|i: int| 0 <= i < rs.len() ==> (#[trigger] rs[i]) is Ok
}

/// The error of the earliest failed resolution; meaningful only when one
/// failed.
pub open spec fn first_resolve_error(rs: Seq<SourceResolveResult>) -> SourceResolveErr
    decreases rs.len(),
{
    if rs.len() == 0 {
        SourceResolveErr::Pattern
    } else {
        match rs[0] {
            Result::Err(e) => e,
            Result::Ok(_) => first_resolve_error(rs.drop_first()),
        }
    }
}

/// The resolutions behind a sequence of successful outcomes.
pub open spec fn resolutions_of(rs: Seq<SourceResolveResult>) -> Seq<ResolvedView> {
    rs.map_values(
        |r: SourceResolveResult|
            match r {
                Result::Ok(ok) => ok@,
                Result::Err(_) => ResolvedView { dirs: Seq::empty(), files: Seq::empty() },
            },
    )
}

proof fn lemma_first_resolve_error_at(rs: Seq<SourceResolveResult>, k: int)
    requires
        0 <= k < rs.len(),
        forall|i: int| 0 <= i < k ==> (#[trigger] rs[i]) is Ok,
        rs[k] is Err,
    ensures
        first_resolve_error(rs) == rs[k]->Err_0,
    decreases k,
{
    if k == 0 {
    } else {
        assert(rs[0] is Ok);
        let rest = rs.drop_first();
        assert forall|i: int| 0 <= i < k - 1 implies (#[trigger] rest[i]) is Ok by {
            assert(rest[i] == rs[i + 1]);
        }
        assert(rest[k - 1] == rs[k]);
        lemma_first_resolve_error_at(rest, k - 1);
    }
}

/// Aggregates declared sources and static directory entries, and merges
/// their resolved tasks into one flat, ordered installation plan: first
/// every directory task — static entries, then each source's directories
/// in source order — then every file task in the same source order.
#[derive(Debug)]
pub struct InstallerBuilder {
    sources: Vec<Source>,
    dir_sources: Vec<AbsolutePath>,
}

impl InstallerBuilder {
    /// The declared sources, in addition order.
    pub closed spec fn source_views(self) -> Seq<SourceView> {
        views_of_sources(self.sources@)
    }

    /// The static directory entries, in addition order.
    pub closed spec fn dir_source_views(self) -> Seq<Seq<Seq<u8>>> {
        views_of_paths(self.dir_sources@)
    }

    /// A builder with nothing declared.
    pub fn new() -> (r: Self)
        ensures
            r.source_views() == Seq::<SourceView>::empty(),
            r.dir_source_views() == Seq::<Seq<Seq<u8>>>::empty(),
    {
        let r = InstallerBuilder { sources: Vec::with_capacity(5), dir_sources: Vec::with_capacity(5) };
        proof {
            assert(r.source_views() =~= Seq::<SourceView>::empty());
            assert(r.dir_source_views() =~= Seq::<Seq<Seq<u8>>>::empty());
        }
        r
    }

    /// Declares one more source.
    pub fn add_source(&mut self, source: Source)
        ensures
            final(self).source_views() == old(self).source_views().push(source@),
            final(self).dir_source_views() == old(self).dir_source_views(),
    {
        let ghost before = self.sources@;
        let ghost sv = source@;
        self.sources.push(source);
        proof {
            assert(views_of_sources(self.sources@) =~= views_of_sources(before).push(sv));
        }
    }

    /// Declares one more static directory entry.
    pub fn add_directory(&mut self, path: AbsolutePath)
        ensures
            final(self).dir_source_views() == old(self).dir_source_views().push(path@),
            final(self).source_views() == old(self).source_views(),
    {
        let ghost before = self.dir_sources@;
        let ghost pv = path@;
        self.dir_sources.push(path);
        proof {
            assert(views_of_paths(self.dir_sources@) =~= views_of_paths(before).push(pv));
        }
    }

    /// The declared sources, for the caller that resolves each of them
    /// against the disk.
    pub fn sources(&self) -> (r: &Vec<Source>)
        ensures
            views_of_sources(r@) == self.source_views(),
    {
        &self.sources
    }

    /// Merges the resolutions of the declared sources — one per source, in
    /// source order — into the final installation plan: all directory
    /// tasks first (static entries, then per-source), then all file tasks
    /// in the same order; link and environment tasks await a future
    /// manifest shape and stay empty. Pure assembly: no filesystem is
    /// touched here.
    #[verifier::loop_isolation(false)]
    pub fn build(self, resolved: Vec<SourceResolveOK>) -> (r: Installer)
        requires
            resolved@.len() == self.source_views().len(),
        ensures
            r@.dirs == self.dir_source_views() + merged_dirs(
                views_of_resolved(resolved@),
                resolved@.len() as int,
            ),
            r@.files == merged_files(views_of_resolved(resolved@), resolved@.len() as int),
            r@.links == Seq::<crate::installer::LinkTaskView>::empty(),
            r@.envs == 0,
    {
        let ghost rviews = views_of_resolved(resolved@);
        let mut dir_tasks: Vec<CreateDirectoryTask> = Vec::new();
        let mut i: usize = 0;
        proof {
            assert(views_of_dir_tasks(dir_tasks@) =~= self.dir_source_views().take(0));
        }
        while i < self.dir_sources.len()
            invariant
                0 <= i <= self.dir_sources@.len(),
                self.dir_source_views().len() == self.dir_sources@.len(),
                views_of_dir_tasks(dir_tasks@) == self.dir_source_views().take(i as int),
            decreases self.dir_sources@.len() - i,
        {
            let ghost before = dir_tasks@;
            let task = CreateDirectoryTask::new(self.dir_sources[i].duplicate());
            dir_tasks.push(task);
            proof {
                assert(views_of_dir_tasks(dir_tasks@) =~= views_of_dir_tasks(before).push(
                    self.dir_source_views()[i as int],
                ));
                assert(views_of_dir_tasks(dir_tasks@) =~= self.dir_source_views().take(i + 1));
            }
            i = i + 1;
        }
        proof {
            assert(self.dir_source_views().take(self.dir_sources@.len() as int)
                =~= self.dir_source_views());
        }
        let mut file_tasks: Vec<WriteFileTask> = Vec::new();
        let total = resolved.len();
        let mut rest = resolved;
        let mut k: usize = 0;
        while k < total
            invariant
                0 <= k <= total,
                total == rviews.len(),
                rest@ == resolved@.skip(k as int),
                views_of_dir_tasks(dir_tasks@) == self.dir_source_views() + merged_dirs(
                    rviews,
                    k as int,
                ),
                views_of_file_tasks(file_tasks@) == merged_files(rviews, k as int),
            decreases total - k,
        {
            proof {
                assert(rest@.len() == total - k);
            }
            let mut item = rest.remove(0);
            proof {
                assert(resolved@.skip(k as int)[0] == resolved@[k as int]);
                assert(resolved@.skip(k as int).remove(0) =~= resolved@.skip(k + 1));
                assert(rviews[k as int] == resolved@[k as int]@);
            }
            let ghost dirs_before = dir_tasks@;
            let ghost item_dirs = item.dir_tasks@;
            dir_tasks.append(&mut item.dir_tasks);
            proof {
                assert(views_of_dir_tasks(dirs_before + item_dirs) =~= views_of_dir_tasks(
                    dirs_before,
                ) + views_of_dir_tasks(item_dirs));
            }
            let ghost files_before = file_tasks@;
            let ghost item_files = item.file_tasks@;
            file_tasks.append(&mut item.file_tasks);
            proof {
                assert(views_of_file_tasks(files_before + item_files) =~= views_of_file_tasks(
                    files_before,
                ) + views_of_file_tasks(item_files));
                assert(views_of_dir_tasks(dir_tasks@) == self.dir_source_views() + merged_dirs(
                    rviews,
                    k + 1,
                )) by {
                    assert(views_of_dir_tasks(item_dirs) == rviews[k as int].dirs);
                    assert((self.dir_source_views() + merged_dirs(rviews, k as int)) + rviews[
                        k as int].dirs =~= self.dir_source_views() + (merged_dirs(rviews, k as int)
                        + rviews[k as int].dirs));
                }
                assert(views_of_file_tasks(file_tasks@) == merged_files(rviews, k + 1)) by {
                    assert(views_of_file_tasks(item_files) == rviews[k as int].files);
                }
            }
            k = k + 1;
        }
        let link_tasks: Vec<crate::installer::CreateLinkTask> = Vec::new();
        let env_tasks: Vec<crate::installer::EnvTask> = Vec::new();
        let ghost lv = crate::installer::views_of_link_tasks(link_tasks@);
        proof {
            assert(lv =~= Seq::<crate::installer::LinkTaskView>::empty());
        }
        Installer::new(dir_tasks, file_tasks, link_tasks, env_tasks)
    }

    /// Decides the whole build from the per-source resolution outcomes, in
    /// source order: the first failure wins, fails the build with that
    /// source's error, and no partial plan escapes; only when every source
    /// resolved is the merged plan produced. The caller resolves the
    /// sources in order and may stop at the first failure, so the outcomes
    /// may be a prefix that ends in an error.
    #[verifier::loop_isolation(false)]
    pub fn try_build(self, outcomes: Vec<SourceResolveResult>) -> (r: BuildResult)
        requires
            outcomes@.len() == self.source_views().len() || (outcomes@.len()
                <= self.source_views().len() && outcomes@.len() > 0 && outcomes@.last() is Err),
        ensures
            r is Ok <==> all_resolved(outcomes@) && outcomes@.len() == self.source_views().len(),
            r matches Ok(inst) ==> inst@.dirs == self.dir_source_views() + merged_dirs(
                resolutions_of(outcomes@),
                outcomes@.len() as int,
            ) && inst@.files == merged_files(resolutions_of(outcomes@), outcomes@.len() as int)
                && inst@.links == Seq::<crate::installer::LinkTaskView>::empty() && inst@.envs
                == 0,
            r matches Err(e) ==> e == BuildError::SourceError(first_resolve_error(outcomes@)),
    {
        let total = outcomes.len();
        let mut rest = outcomes;
        let mut resolved: Vec<SourceResolveOK> = Vec::new();
        let mut k: usize = 0;
        proof {
            assert(views_of_resolved(resolved@) =~= resolutions_of(outcomes@).take(0));
        }
        while k < total
            invariant
                0 <= k <= total,
                total == outcomes@.len(),
                rest@ == outcomes@.skip(k as int),
                forall|i: int| 0 <= i < k ==> (#[trigger] outcomes@[i]) is Ok,
                views_of_resolved(resolved@) == resolutions_of(outcomes@).take(k as int),
                resolved@.len() == k,
            decreases total - k,
        {
            proof {
                assert(rest@.len() == total - k);
                assert(outcomes@.skip(k as int)[0] == outcomes@[k as int]);
                assert(outcomes@.skip(k as int).remove(0) =~= outcomes@.skip(k + 1));
            }
            let item = rest.remove(0);
            match item {
                Result::Ok(ok) => {
                    let ghost before = resolved@;
                    let ghost okv = ok@;
                    resolved.push(ok);
                    proof {
                        assert(resolutions_of(outcomes@)[k as int] == okv);
                        assert(views_of_resolved(before.push(item->Ok_0)) =~= views_of_resolved(
                            before,
                        ).push(okv));
                        assert(views_of_resolved(resolved@) =~= resolutions_of(outcomes@).take(
                            k + 1,
                        ));
                    }
                },
                Result::Err(e) => {
                    proof {
                        lemma_first_resolve_error_at(outcomes@, k as int);
                    }
                    return Err(BuildError::SourceError(e));
                },
            }
            k = k + 1;
        }
        proof {
            if total < self.source_views().len() {
                assert(outcomes@.last() is Err);
                assert(outcomes@[total - 1] is Ok);
            }
            assert(resolutions_of(outcomes@).take(total as int) =~= resolutions_of(outcomes@));
        }
        let installer = self.build(resolved);
        Ok(installer)
    }
}

/// The pattern text a source carries.
pub open spec fn source_pattern(s: Source) -> Seq<char> {
    match s.path {
        SourcePath::Disk(_, p) => p@,
        SourcePath::Archive(_, _, p) => p@,
    }
}

/// The root a disk source walks.
pub open spec fn source_root_view(s: Source) -> Seq<Seq<u8>> {
    match s.path {
        SourcePath::Disk(root, _) => root@,
        SourcePath::Archive(root, _, _) => root@,
    }
}

} // verus!
