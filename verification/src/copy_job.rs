//! Copying and moving: the state of a job, the conflicts it asks about, and
//! the steps from one request to the file system to the next.
use crate::numerals::{decimal, decimal_denotes, to_decimal};
use crate::paths::{copy_paths, dotted_extension, entry_lies_in_directory, extension, file_stem};
use crate::paths::{path_views, starts_with_is_transitive, stem_of, FsPath, PathView};
use crate::text::{copy_text, texts};
use vstd::prelude::*;
use vstd::string::StringExecFns;

verus! {

// ---------------------------------------------------------------------------
// The state of a job
// ---------------------------------------------------------------------------

/// What is known of a file: its size in bytes and when it was last changed,
/// in nanoseconds since the start of 1970.
#[derive(Clone, Copy)]
pub struct FileFacts {
    pub size: u64,
    pub modified: Option<i128>,
}

/// A file conflict that the user has to decide.
pub struct ConflictInfo {
    /// The file's name, for display.
    pub file_name: String,
    pub src_size: u64,
    pub src_modified: Option<i128>,
    pub dst_size: u64,
    pub dst_modified: Option<i128>,
}

/// The user's answer to a conflict.
#[derive(Clone, Copy, PartialEq, Eq, Structural)]
pub enum ConflictChoice {
    /// Replace this one file.
    Overwrite,
    /// Keep the existing file.
    Skip,
    /// Replace every conflicting file of this job without asking again.
    OverwriteAll,
    /// Keep every existing file of this job without asking again.
    SkipAll,
    /// End the whole job.
    Abort,
}

/// The state of a copy or move job, as the progress panel shows it.
pub struct CopyJobState {
    /// Files completed so far.
    pub files_done: usize,
    /// Total file count.
    pub files_total: usize,
    /// Bytes written so far across all files.
    pub bytes_copied: u64,
    /// Total bytes across all source files.
    pub total_bytes: u64,
    /// When the transfer started, in milliseconds since the start of 1970.
    pub started_at_ms: u64,
    /// Name of the file being processed.
    pub current_file: String,
    /// The user asked for a pause.
    pub paused: bool,
    /// The user asked for the end of the job.
    pub cancelled: bool,
    /// The job is over: it succeeded, was cancelled or failed.
    pub done: bool,
    /// Whether the originals go.
    pub is_move: bool,
    /// Short label of the destination.
    pub dest_display: String,
    /// The first error message, if any.
    pub error: Option<String>,
    /// Names of the files and directories placed in the destination.
    pub pasted_names: Vec<String>,
    /// Whether the clipboard is to be cleared when the job is over.
    pub clear_clipboard: bool,
    /// The conflict that waits for an answer.
    pub conflict_query: Option<ConflictInfo>,
    /// The answer, until the job takes it.
    pub conflict_answer: Option<ConflictChoice>,
    /// Files skipped because source and destination were identical.
    pub skipped_identical: Vec<String>,
    /// The user chose to replace every conflicting file.
    pub overwrite_all: bool,
    /// The user chose to keep every existing file.
    pub skip_all: bool,
    /// Whether the job leaves no undo entry behind.
    pub no_undo: bool,
    /// The sources as they were when the job was made.
    pub original_sources: Vec<FsPath>,
    /// The sources that were placed in the destination, to undo a move.
    pub placed_sources: Vec<FsPath>,
    /// The destination, where it is known.
    pub dest: Option<FsPath>,
}

/// The view of a `ConflictInfo`.
#[verifier::ext_equal]
pub struct ConflictView {
    pub file_name: Seq<char>,
    pub src_size: u64,
    pub src_modified: Option<i128>,
    pub dst_size: u64,
    pub dst_modified: Option<i128>,
}

/// The view of a `CopyJobState`.
#[verifier::ext_equal]
pub struct JobView {
    pub files_done: usize,
    pub files_total: usize,
    pub bytes_copied: u64,
    pub total_bytes: u64,
    pub started_at_ms: u64,
    pub current_file: Seq<char>,
    pub paused: bool,
    pub cancelled: bool,
    pub done: bool,
    pub is_move: bool,
    pub dest_display: Seq<char>,
    pub error: Option<Seq<char>>,
    pub pasted_names: Seq<Seq<char>>,
    pub clear_clipboard: bool,
    pub conflict_query: Option<ConflictView>,
    pub conflict_answer: Option<ConflictChoice>,
    pub skipped_identical: Seq<Seq<char>>,
    pub overwrite_all: bool,
    pub skip_all: bool,
    pub no_undo: bool,
    pub original_sources: Seq<PathView>,
    pub placed_sources: Seq<PathView>,
    pub dest: Option<PathView>,
}

impl View for ConflictInfo {
    type V = ConflictView;

    open spec fn view(&self) -> ConflictView {
        ConflictView {
            file_name: self.file_name@,
            src_size: self.src_size,
            src_modified: self.src_modified,
            dst_size: self.dst_size,
            dst_modified: self.dst_modified,
        }
    }
}

/// The view of an optional text.
pub open spec fn opt_text(s: Option<String>) -> Option<Seq<char>> {
    match s {
        Some(t) => Some(t@),
        None => None,
    }
}

impl View for CopyJobState {
    type V = JobView;

    open spec fn view(&self) -> JobView {
        JobView {
            files_done: self.files_done,
            files_total: self.files_total,
            bytes_copied: self.bytes_copied,
            total_bytes: self.total_bytes,
            started_at_ms: self.started_at_ms,
            current_file: self.current_file@,
            paused: self.paused,
            cancelled: self.cancelled,
            done: self.done,
            is_move: self.is_move,
            dest_display: self.dest_display@,
            error: opt_text(self.error),
            pasted_names: texts(self.pasted_names@),
            clear_clipboard: self.clear_clipboard,
            conflict_query: match self.conflict_query {
                Some(q) => Some(q@),
                None => None,
            },
            conflict_answer: self.conflict_answer,
            skipped_identical: texts(self.skipped_identical@),
            overwrite_all: self.overwrite_all,
            skip_all: self.skip_all,
            no_undo: self.no_undo,
            original_sources: path_views(self.original_sources@),
            placed_sources: path_views(self.placed_sources@),
            dest: match self.dest {
                Some(d) => Some(d@),
                None => None,
            },
        }
    }
}

/// A job before its first step.
pub open spec fn fresh_job(is_move: bool, dest_display: Seq<char>) -> JobView {
    JobView {
        files_done: 0,
        files_total: 0,
        bytes_copied: 0,
        total_bytes: 0,
        started_at_ms: 0,
        current_file: Seq::empty(),
        paused: false,
        cancelled: false,
        done: false,
        is_move,
        dest_display,
        error: None,
        pasted_names: Seq::empty(),
        clear_clipboard: false,
        conflict_query: None,
        conflict_answer: None,
        skipped_identical: Seq::empty(),
        overwrite_all: false,
        skip_all: false,
        no_undo: false,
        original_sources: Seq::empty(),
        placed_sources: Seq::empty(),
        dest: None,
    }
}

impl CopyJobState {
    /// A job that has done nothing yet.
    pub fn new(is_move: bool, dest_display: String) -> (r: CopyJobState)
        ensures
            r@ == fresh_job(is_move, dest_display@),
    {
        let r = CopyJobState {
            files_done: 0,
            files_total: 0,
            bytes_copied: 0,
            total_bytes: 0,
            started_at_ms: 0,
            current_file: String::new(),
            paused: false,
            cancelled: false,
            done: false,
            is_move,
            dest_display,
            error: None,
            pasted_names: Vec::new(),
            clear_clipboard: false,
            conflict_query: None,
            conflict_answer: None,
            skipped_identical: Vec::new(),
            overwrite_all: false,
            skip_all: false,
            no_undo: false,
            original_sources: Vec::new(),
            placed_sources: Vec::new(),
            dest: None,
        };
        assert(r@ =~= fresh_job(is_move, dest_display@));
        r
    }

    /// A job for these sources that has done nothing yet.
    pub fn prepared(
        sources: &Vec<FsPath>,
        dest: &FsPath,
        is_move: bool,
        clear_clipboard: bool,
        no_undo: bool,
    ) -> (r: CopyJobState)
        ensures
            r@ == (JobView {
                clear_clipboard,
                no_undo,
                original_sources: path_views(sources@),
                dest: Some(dest@),
                ..fresh_job(is_move, dest@.written())
            }),
    {
        let mut r = CopyJobState::new(is_move, dest.to_text());
        r.clear_clipboard = clear_clipboard;
        r.no_undo = no_undo;
        r.original_sources = copy_paths(sources);
        r.dest = Some(dest.copy());
        r
    }
}

// ---------------------------------------------------------------------------
// Conflicts
// ---------------------------------------------------------------------------

/// Whether two times are less than two seconds apart. Some file systems keep
/// times to two seconds.
pub open spec fn same_time(a: Option<i128>, b: Option<i128>) -> bool {
    match (a, b) {
        (Some(x), Some(y)) => -2_000_000_000 < x - y < 2_000_000_000,
        _ => false,
    }
}

/// Whether two files count as the same: equal sizes and equal times.
pub open spec fn same_file(a: Option<FileFacts>, b: Option<FileFacts>) -> bool {
    match (a, b) {
        (Some(x), Some(y)) => x.size == y.size && same_time(x.modified, y.modified),
        _ => false,
    }
}

/// What becomes of a file that is about to be copied.
#[derive(Clone, Copy, PartialEq, Eq, Structural)]
pub enum FileAction {
    Copy,
    Skip,
    Ask,
}

/// A file is copied where nothing is in its way, skipped where the same file
/// is there already, and otherwise as the user decided for the whole job or
/// decides now.
pub open spec fn conflict_action(
    job: JobView,
    exists: bool,
    src: Option<FileFacts>,
    dst: Option<FileFacts>,
) -> FileAction {
    if !exists {
        FileAction::Copy
    } else if same_file(src, dst) || job.skip_all {
        FileAction::Skip
    } else if job.overwrite_all {
        FileAction::Copy
    } else {
        FileAction::Ask
    }
}

/// What the user is asked.
pub open spec fn conflict_question(
    name: Seq<char>,
    src: Option<FileFacts>,
    dst: Option<FileFacts>,
) -> ConflictView {
    ConflictView {
        file_name: name,
        src_size: match src {
            Some(f) => f.size,
            None => 0,
        },
        src_modified: match src {
            Some(f) => f.modified,
            None => None,
        },
        dst_size: match dst {
            Some(f) => f.size,
            None => 0,
        },
        dst_modified: match dst {
            Some(f) => f.modified,
            None => None,
        },
    }
}

/// The job after a file was held against what is in its way.
pub open spec fn after_comparison(
    job: JobView,
    name: Seq<char>,
    exists: bool,
    src: Option<FileFacts>,
    dst: Option<FileFacts>,
) -> JobView {
    if exists && same_file(src, dst) {
        JobView { skipped_identical: job.skipped_identical.push(name), ..job }
    } else if conflict_action(job, exists, src, dst) == FileAction::Ask {
        JobView { conflict_query: Some(conflict_question(name, src, dst)), ..job }
    } else {
        job
    }
}

/// Whether the user's answer lets the file be copied.
pub open spec fn choice_action(choice: ConflictChoice) -> FileAction {
    match choice {
        ConflictChoice::Overwrite | ConflictChoice::OverwriteAll => FileAction::Copy,
        _ => FileAction::Skip,
    }
}

/// The job after the user's answer.
pub open spec fn after_choice(job: JobView, choice: ConflictChoice) -> JobView {
    JobView {
        conflict_query: None,
        conflict_answer: None,
        overwrite_all: job.overwrite_all || choice == ConflictChoice::OverwriteAll,
        skip_all: job.skip_all || choice == ConflictChoice::SkipAll,
        cancelled: job.cancelled || choice == ConflictChoice::Abort,
        ..job
    }
}

/// Whether two times are less than two seconds apart.
fn times_agree(a: Option<i128>, b: Option<i128>) -> (r: bool)
    ensures
        r == same_time(a, b),
{
    match (a, b) {
        (Some(x), Some(y)) => {
            let (lo, hi) = if x < y {
                (x, y)
            } else {
                (y, x)
            };
            if lo > i128::MAX - 2_000_000_000 {
                true
            } else {
                hi < lo + 2_000_000_000
            }
        },
        _ => false,
    }
}

/// Whether two files count as the same.
fn files_agree(a: Option<FileFacts>, b: Option<FileFacts>) -> (r: bool)
    ensures
        r == same_file(a, b),
{
    match (a, b) {
        (Some(x), Some(y)) => x.size == y.size && times_agree(x.modified, y.modified),
        _ => false,
    }
}

/// Decides what becomes of the file `name`, given whether something is in its
/// way and what is known of both, and records it in the job: a skipped file
/// by its name, an undecided one by the question to the user.
pub fn check_file_conflict(
    job: &mut CopyJobState,
    name: &str,
    exists: bool,
    src: Option<FileFacts>,
    dst: Option<FileFacts>,
) -> (r: FileAction)
    ensures
        r == conflict_action(old(job)@, exists, src, dst),
        final(job)@ == after_comparison(old(job)@, name@, exists, src, dst),
{
    if !exists {
        return FileAction::Copy;
    }
    if files_agree(src, dst) {
        let ghost before = job@.skipped_identical;
        job.skipped_identical.push(copy_text(name));
        assert(job@.skipped_identical =~= before.push(name@));
        return FileAction::Skip;
    }
    if job.skip_all {
        return FileAction::Skip;
    }
    if job.overwrite_all {
        return FileAction::Copy;
    }
    let (src_size, src_modified): (u64, Option<i128>) = match src {
        Some(f) => (f.size, f.modified),
        None => (0, None),
    };
    let (dst_size, dst_modified): (u64, Option<i128>) = match dst {
        Some(f) => (f.size, f.modified),
        None => (0, None),
    };
    job.conflict_query = Some(
        ConflictInfo { file_name: copy_text(name), src_size, src_modified, dst_size, dst_modified },
    );
    FileAction::Ask
}

/// Takes the user's answer into the job.
pub fn answer_conflict(job: &mut CopyJobState, choice: ConflictChoice) -> (r: FileAction)
    ensures
        r == choice_action(choice),
        final(job)@ == after_choice(old(job)@, choice),
{
    job.conflict_query = None;
    job.conflict_answer = None;
    match choice {
        ConflictChoice::Overwrite => FileAction::Copy,
        ConflictChoice::Skip => FileAction::Skip,
        ConflictChoice::OverwriteAll => {
            job.overwrite_all = true;
            FileAction::Copy
        },
        ConflictChoice::SkipAll => {
            job.skip_all = true;
            FileAction::Skip
        },
        ConflictChoice::Abort => {
            job.cancelled = true;
            FileAction::Skip
        },
    }
}

/// Once the user decided for the whole job, no file of it is asked about
/// again.
pub proof fn standing_choice_asks_no_more(
    job: JobView,
    choice: ConflictChoice,
    exists: bool,
    src: Option<FileFacts>,
    dst: Option<FileFacts>,
)
    requires
        choice == ConflictChoice::OverwriteAll || choice == ConflictChoice::SkipAll,
    ensures
        conflict_action(after_choice(job, choice), exists, src, dst) != FileAction::Ask,
{
}

/// A file that the destination holds already is never written again, whatever
/// the user decided.
pub proof fn identical_file_is_never_copied(
    job: JobView,
    src: Option<FileFacts>,
    dst: Option<FileFacts>,
)
    requires
        same_file(src, dst),
    ensures
        conflict_action(job, true, src, dst) == FileAction::Skip,
{
}

// ---------------------------------------------------------------------------
// Names for copies
// ---------------------------------------------------------------------------

/// The name of the `k`-th copy of a file called `name`: "stem copy.ext",
/// "stem copy 2.ext", "stem copy 3.ext" and so on. The copies of a folder are
/// called "name copy", "name copy 2" and so on, dots or none.
pub open spec fn copy_name(name: Seq<char>, is_dir: bool, k: nat) -> Seq<char> {
    let stem = if is_dir {
        name
    } else {
        stem_of(name)
    };
    let ext = if is_dir {
        Seq::empty()
    } else {
        dotted_extension(name)
    };
    if k <= 1 {
        stem + " copy"@ + ext
    } else {
        stem + " copy "@ + decimal(k) + ext
    }
}

/// The name of the `k`-th copy of `name`.
pub fn make_copy_name(name: &str, is_dir: bool, k: u32) -> (r: String)
    ensures
        r@ == copy_name(name@, is_dir, k as nat),
{
    let mut r = if is_dir {
        copy_text(name)
    } else {
        file_stem(name)
    };
    if k <= 1 {
        r.append(" copy");
    } else {
        r.append(" copy ");
        let n = to_decimal(k as u64);
        r.append(n.as_str());
    }
    if !is_dir {
        match extension(name) {
            Some(e) => {
                r.push('.');
                r.append(e.as_str());
            },
            None => {},
        }
    }
    assert(r@ =~= copy_name(name@, is_dir, k as nat));
    r
}

/// The names of two copies of one file or folder differ.
pub proof fn copy_names_differ(name: Seq<char>, is_dir: bool, j: nat, k: nat)
    requires
        1 <= j < k,
    ensures
        copy_name(name, is_dir, j) != copy_name(name, is_dir, k),
{
    reveal_strlit(" copy");
    reveal_strlit(" copy ");
    let stem = if is_dir {
        name
    } else {
        stem_of(name)
    };
    let ext = if is_dir {
        Seq::empty()
    } else {
        dotted_extension(name)
    };
    let a = copy_name(name, is_dir, j);
    let b = copy_name(name, is_dir, k);
    decimal_denotes(k);
    if j == 1 {
        assert(b.len() > a.len());
    } else {
        decimal_denotes(j);
        if a == b {
            let from = (stem + " copy "@).len() as int;
            assert(a.subrange(from, a.len() - ext.len()) =~= decimal(j));
            assert(b.subrange(from, b.len() - ext.len()) =~= decimal(k));
        }
    }
}

/// The path of the `k`-th copy of `source` in `dest_dir`.
pub fn make_copy_path(source: &FsPath, is_dir: bool, dest_dir: &FsPath, k: u32) -> (r: FsPath)
    ensures
        r@ == dest_dir@.join(
            copy_name(
                match source@.file_name() {
                    Some(n) => n,
                    None => Seq::empty(),
                },
                is_dir,
                k as nat,
            ),
        ),
{
    let name = name_or_empty(source);
    let copy = make_copy_name(name.as_str(), is_dir, k);
    dest_dir.join(copy.as_str())
}

/// The name of a path, or nothing where it has none.
pub open spec fn shown_name(p: PathView) -> Seq<char> {
    match p.file_name() {
        Some(n) => n,
        None => Seq::empty(),
    }
}

/// The name of a path, or nothing where it has none.
pub fn name_or_empty(p: &FsPath) -> (r: String)
    ensures
        r@ == shown_name(p@),
{
    match p.file_name() {
        Some(n) => n,
        None => {
            let r = String::new();
            assert(r@ =~= Seq::empty());
            r
        },
    }
}

// ---------------------------------------------------------------------------
// The steps of a job
// ---------------------------------------------------------------------------

/// What a job waits for.
#[derive(Clone, Copy, PartialEq, Eq, Structural)]
pub enum CopyPhase {
    /// Whether the source is a directory.
    InspectSource,
    /// Whether the name of the given copy is taken.
    ProbeName(u32),
    /// Whether something is at the target.
    ProbeTarget,
    /// The attempt to rename the source.
    Rename,
    /// The attempt to make the directory `to` and list `from`.
    OpenDir,
    /// Whether `from` is a directory.
    InspectEntry,
    /// What is known of the files `from` and `to`.
    Compare,
    /// The user's answer to a conflict.
    Ask,
    /// The attempt to copy the file `from` to `to`.
    CopyFile,
    /// The attempt to send the source to the recycle bin.
    Recycle,
    /// Nothing: the job is over.
    Finished,
}

/// What became of a file that needs no more work.
#[derive(Clone, Copy, PartialEq, Eq, Structural)]
pub enum Settled {
    /// It was copied.
    Copied,
    /// The destination holds the same file already.
    Identical,
    /// The user keeps what is in its way.
    LeftOut,
}

/// A job that runs: its sources, its destination, and where it stands.
pub struct CopyRun {
    pub sources: Vec<FsPath>,
    pub dest: FsPath,
    /// The position of the source that is worked on.
    pub at: usize,
    /// Whether that source is a directory.
    pub is_dir: bool,
    /// Where that source goes.
    pub target: FsPath,
    /// The file or directory that is worked on, and where it goes.
    pub from: FsPath,
    pub to: FsPath,
    /// The entries of directories that wait, the next one last.
    pub pending: Vec<(FsPath, FsPath)>,
    /// Whether a file of the directory was left out.
    pub left_out: bool,
    pub phase: CopyPhase,
}

/// The view of a `CopyRun`.
#[verifier::ext_equal]
pub struct RunView {
    pub sources: Seq<PathView>,
    pub dest: PathView,
    pub at: nat,
    pub is_dir: bool,
    pub target: PathView,
    pub from: PathView,
    pub to: PathView,
    pub pending: Seq<(PathView, PathView)>,
    pub left_out: bool,
    pub phase: CopyPhase,
}

/// The views of a list of pairs of paths.
pub open spec fn pair_views(v: Seq<(FsPath, FsPath)>) -> Seq<(PathView, PathView)> {
    Seq::new(v.len(), |i: int| (v[i].0@, v[i].1@))
}

impl View for CopyRun {
    type V = RunView;

    open spec fn view(&self) -> RunView {
        RunView {
            sources: path_views(self.sources@),
            dest: self.dest@,
            at: self.at as nat,
            is_dir: self.is_dir,
            target: self.target@,
            from: self.from@,
            to: self.to@,
            pending: pair_views(self.pending@),
            left_out: self.left_out,
            phase: self.phase,
        }
    }
}

/// The job with a message about what went wrong; the first one stays.
pub open spec fn with_error(job: JobView, message: Seq<char>) -> JobView {
    if job.error is Some {
        job
    } else {
        JobView { error: Some(message), ..job }
    }
}

/// Notes what went wrong, unless something went wrong before.
fn note_error(job: &mut CopyJobState, message: String)
    ensures
        final(job)@ == with_error(old(job)@, message@),
{
    if job.error.is_none() {
        job.error = Some(message);
    }
}

/// A run and its job.
#[verifier::ext_equal]
pub struct Work {
    pub run: RunView,
    pub job: JobView,
}

impl Work {
    /// The source that is worked on.
    pub open spec fn source(self) -> PathView {
        self.run.sources[self.run.at as int]
    }

    /// The end of the job.
    pub open spec fn finished(self) -> Work {
        Work {
            run: RunView { phase: CopyPhase::Finished, ..self.run },
            job: JobView { done: true, ..self.job },
        }
    }

    /// The end of the job with a message about the source.
    pub open spec fn failed(self, message: Seq<char>) -> Work {
        Work {
            job: with_error(self.job, shown_name(self.source()) + ": "@ + message),
            ..self
        }.finished()
    }

    /// The start of the work on source `i`; the end of the job where there is
    /// none or the user asked for it.
    pub open spec fn begin(self, i: nat) -> Work {
        if i >= self.run.sources.len() || self.job.cancelled {
            self.finished()
        } else {
            Work { run: RunView { at: i, phase: CopyPhase::InspectSource, ..self.run }, ..self }
        }
    }

    /// The work on the next source.
    pub open spec fn next_source(self) -> Work {
        self.begin(self.run.at + 1)
    }

    /// One more file is done.
    pub open spec fn one_done(self) -> Work {
        Work { job: JobView { files_done: self.job.files_done.wrapping_add(1), ..self.job }, ..self }
    }

    /// The source is in its place.
    pub open spec fn placed(self) -> Work {
        Work {
            job: JobView {
                pasted_names: self.job.pasted_names.push(shown_name(self.run.target)),
                placed_sources: self.job.placed_sources.push(self.source()),
                ..self.job
            },
            ..self
        }.next_source()
    }

    /// The source is copied: in a move its original goes to the recycle bin.
    pub open spec fn source_copied(self) -> Work {
        if self.job.is_move {
            Work { run: RunView { phase: CopyPhase::Recycle, ..self.run }, ..self }
        } else {
            self.placed()
        }
    }

    /// The copying of the source to its target begins.
    pub open spec fn start_copy(self) -> Work {
        let run = RunView { from: self.source(), to: self.run.target, ..self.run };
        if self.run.is_dir {
            Work {
                run: RunView {
                    phase: CopyPhase::OpenDir,
                    pending: Seq::empty(),
                    left_out: false,
                    ..run
                },
                ..self
            }
        } else {
            Work {
                run: RunView { phase: CopyPhase::Compare, ..run },
                job: JobView { current_file: shown_name(self.source()), ..self.job },
            }
        }
    }

    /// The target of the source is known: nothing is to be done where the
    /// source is there already, and a move first looks at what is there.
    pub open spec fn go_to(self, target: PathView) -> Work {
        let w = Work { run: RunView { target, ..self.run }, ..self };
        if self.source().is_same(target) {
            w.one_done().next_source()
        } else if self.job.is_move {
            Work { run: RunView { phase: CopyPhase::ProbeTarget, ..w.run }, ..w }
        } else {
            w.start_copy()
        }
    }

    /// It is known whether something is at the target: where nothing is, the
    /// move is tried as a rename, and otherwise file by file.
    pub open spec fn target_probed(self, exists: bool) -> Work {
        if exists {
            self.start_copy()
        } else {
            Work { run: RunView { phase: CopyPhase::Rename, ..self.run }, ..self }
        }
    }

    /// No entry of the directory waits. In a move its original stays where a
    /// file of it was left out.
    pub open spec fn dir_settled(self) -> Work {
        if self.job.is_move && self.run.left_out {
            self.next_source()
        } else {
            self.source_copied()
        }
    }

    /// The next entry of the directories that wait.
    pub open spec fn next_entry(self) -> Work {
        if self.run.pending.len() == 0 {
            self.dir_settled()
        } else if self.job.cancelled {
            self.finished()
        } else {
            Work {
                run: RunView {
                    from: self.run.pending.last().0,
                    to: self.run.pending.last().1,
                    pending: self.run.pending.drop_last(),
                    phase: CopyPhase::InspectEntry,
                    ..self.run
                },
                ..self
            }
        }
    }

    /// The file that is worked on needs no more work: inside a directory the
    /// next entry follows. In a move the original goes where the file was
    /// copied or is at its target already; one that was left out stays.
    pub open spec fn file_settled(self, how: Settled) -> Work {
        let w = self.one_done();
        if w.run.is_dir {
            Work {
                run: RunView {
                    left_out: w.run.left_out || how == Settled::LeftOut,
                    ..w.run
                },
                ..w
            }.next_entry()
        } else if how == Settled::Copied || (how == Settled::Identical && w.job.is_move) {
            w.source_copied()
        } else {
            w.next_source()
        }
    }

    /// The user ended the job at a file, which counts as done.
    pub open spec fn ended(self) -> Work {
        self.one_done().finished()
    }

    /// The file that is worked on is copied, skipped or asked about.
    pub open spec fn decided(self, action: FileAction, identical: bool) -> Work {
        match action {
            FileAction::Copy => Work {
                run: RunView { phase: CopyPhase::CopyFile, ..self.run },
                ..self
            },
            FileAction::Skip => self.file_settled(
                if identical {
                    Settled::Identical
                } else {
                    Settled::LeftOut
                },
            ),
            FileAction::Ask => Work { run: RunView { phase: CopyPhase::Ask, ..self.run }, ..self },
        }
    }
}

/// The message about a directory that would be copied into itself.
pub open spec fn refusal(source: PathView) -> Seq<char> {
    "Refusing unsafe operation: destination is inside source ("@ + source.written() + ")"@
}

/// The message about an original that could not be sent to the recycle bin.
pub open spec fn recycle_failure(source: PathView) -> Seq<char> {
    "Move safety stop: couldn't send original to Recycle Bin: "@ + source.written()
}

impl Work {
    /// It is known whether the source is a directory.
    pub open spec fn source_inspected(self, is_dir: bool) -> Work {
        let source = self.source();
        let w = Work { run: RunView { is_dir, ..self.run }, ..self };
        if is_dir && self.run.dest.starts_with(source) {
            Work { job: with_error(w.job, refusal(source)), ..w }.next_source()
        } else if source.file_name() is None {
            w.next_source()
        } else if !self.job.is_move && source.lies_in(self.run.dest) {
            Work { run: RunView { phase: CopyPhase::ProbeName(1), ..w.run }, ..w }
        } else {
            w.go_to(self.run.dest.join(shown_name(source)))
        }
    }

    /// It is known whether the name of the copy is taken.
    pub open spec fn name_probed(self, exists: bool) -> Work {
        match self.run.phase {
            CopyPhase::ProbeName(k) => if exists {
                Work {
                    run: RunView { phase: CopyPhase::ProbeName((k + 1) as u32), ..self.run },
                    ..self
                }
            } else {
                self.go_to(
                    self.run.dest.join(
                        copy_name(shown_name(self.source()), self.run.is_dir, k as nat),
                    ),
                )
            },
            _ => self,
        }
    }

    /// The rename succeeded, for so many files and bytes, or it did not.
    pub open spec fn rename_tried(self, moved: Option<(usize, u64)>) -> Work {
        match moved {
            Some((files, bytes)) => Work {
                job: JobView {
                    files_done: self.job.files_done.wrapping_add(files),
                    bytes_copied: self.job.bytes_copied.wrapping_add(bytes),
                    ..self.job
                },
                ..self
            }.placed(),
            None => self.start_copy(),
        }
    }

    /// The directory `from` holds the entries `names`.
    pub open spec fn dir_listed(self, names: Seq<Seq<char>>) -> Work {
        let entries = Seq::new(
            names.len(),
            |i: int|
                (
                    self.run.from.join(names[names.len() - 1 - i]),
                    self.run.to.join(names[names.len() - 1 - i]),
                ),
        );
        Work {
            run: RunView { pending: self.run.pending + entries, ..self.run },
            ..self
        }.next_entry()
    }

    /// It is known whether the entry is a directory.
    pub open spec fn entry_inspected(self, is_dir: bool) -> Work {
        if is_dir {
            Work { run: RunView { phase: CopyPhase::OpenDir, ..self.run }, ..self }
        } else {
            Work {
                run: RunView { phase: CopyPhase::Compare, ..self.run },
                job: JobView { current_file: shown_name(self.run.from), ..self.job },
            }
        }
    }

    /// The file was held against what is in its way.
    pub open spec fn compared(
        self,
        exists: bool,
        src: Option<FileFacts>,
        dst: Option<FileFacts>,
    ) -> Work {
        Work {
            job: after_comparison(self.job, shown_name(self.run.from), exists, src, dst),
            ..self
        }.decided(conflict_action(self.job, exists, src, dst), exists && same_file(src, dst))
    }

    /// The user answered, or ended the job by the answer.
    pub open spec fn answered(self, choice: ConflictChoice) -> Work {
        let w = Work { job: after_choice(self.job, choice), ..self };
        if choice == ConflictChoice::Abort {
            w.ended()
        } else {
            w.decided(choice_action(choice), false)
        }
    }

    /// The user ended the job in place of an answer.
    pub open spec fn unanswered(self) -> Work {
        Work { job: JobView { conflict_query: None, ..self.job }, ..self }.ended()
    }

    /// The file system refused: the job ends, with a message unless the user
    /// had ended it.
    pub open spec fn refused(self, interrupted: bool, message: Seq<char>) -> Work {
        if interrupted {
            self.finished()
        } else {
            self.failed(message)
        }
    }
}

impl CopyRun {
    /// The run together with its job.
    pub open spec fn with(&self, job: &CopyJobState) -> Work {
        Work { run: self@, job: job@ }
    }

    /// The source that is worked on is one of the sources.
    pub open spec fn has_source(&self) -> bool {
        self.at < self.sources@.len()
    }

    /// Starts a job: notes the time and the totals, and begins with the first
    /// source.
    pub fn start(
        sources: Vec<FsPath>,
        dest: FsPath,
        job: &mut CopyJobState,
        now_ms: u64,
        files_total: usize,
        total_bytes: u64,
    ) -> (r: CopyRun)
        ensures
            r@.sources == path_views(sources@),
            r@.dest == dest@,
            r@.pending == Seq::<(PathView, PathView)>::empty(),
            !r.left_out,
            r.with(final(job)) == (Work {
                run: r@,
                job: JobView { started_at_ms: now_ms, files_total, total_bytes, ..old(job)@ },
            }).begin(0),
            r.phase == CopyPhase::Finished || r.has_source(),
    {
        job.started_at_ms = now_ms;
        job.files_total = files_total;
        job.total_bytes = total_bytes;
        let target = dest.copy();
        let from = dest.copy();
        let to = dest.copy();
        let mut r = CopyRun {
            sources,
            dest,
            at: 0,
            is_dir: false,
            target,
            from,
            to,
            pending: Vec::new(),
            left_out: false,
            phase: CopyPhase::InspectSource,
        };
        assert(r@.pending =~= Seq::empty());
        if r.sources.len() == 0 || job.cancelled {
            r.finish(job);
        }
        r
    }

    fn finish(&mut self, job: &mut CopyJobState)
        ensures
            final(self).with(final(job)) == old(self).with(old(job)).finished(),
            final(self).sources == old(self).sources,
    {
        self.phase = CopyPhase::Finished;
        job.done = true;
    }

    fn fail(&mut self, job: &mut CopyJobState, message: &str)
        requires
            old(self).has_source(),
        ensures
            final(self).with(final(job)) == old(self).with(old(job)).failed(message@),
    {
        let mut text = name_or_empty(&self.sources[self.at]);
        text.append(": ");
        text.append(message);
        note_error(job, text);
        self.finish(job);
    }

    fn next_source(&mut self, job: &mut CopyJobState)
        requires
            old(self).has_source(),
        ensures
            final(self).with(final(job)) == old(self).with(old(job)).next_source(),
            final(self).phase == CopyPhase::Finished || final(self).has_source(),
    {
        if self.sources.len() - self.at <= 1 || job.cancelled {
            self.finish(job);
        } else {
            self.at = self.at + 1;
            self.phase = CopyPhase::InspectSource;
        }
    }

    fn one_done(&mut self, job: &mut CopyJobState)
        ensures
            *final(self) == *old(self),
            final(self).with(final(job)) == old(self).with(old(job)).one_done(),
    {
        job.files_done = job.files_done.wrapping_add(1);
    }

    fn placed(&mut self, job: &mut CopyJobState)
        requires
            old(self).has_source(),
        ensures
            final(self).with(final(job)) == old(self).with(old(job)).placed(),
            final(self).phase == CopyPhase::Finished || final(self).has_source(),
    {
        let ghost before = job@.pasted_names;
        let name = name_or_empty(&self.target);
        job.pasted_names.push(name);
        assert(job@.pasted_names =~= before.push(shown_name(self@.target)));
        let ghost placed = job@.placed_sources;
        job.placed_sources.push(self.sources[self.at].copy());
        assert(job@.placed_sources =~= placed.push(self@.sources[self@.at as int]));
        self.next_source(job);
    }

    fn source_copied(&mut self, job: &mut CopyJobState)
        requires
            old(self).has_source(),
        ensures
            final(self).with(final(job)) == old(self).with(old(job)).source_copied(),
            final(self).phase == CopyPhase::Finished || final(self).has_source(),
    {
        if job.is_move {
            self.phase = CopyPhase::Recycle;
        } else {
            self.placed(job);
        }
    }

    fn start_copy(&mut self, job: &mut CopyJobState)
        requires
            old(self).has_source(),
        ensures
            final(self).with(final(job)) == old(self).with(old(job)).start_copy(),
            final(self).has_source(),
    {
        self.from = self.sources[self.at].copy();
        self.to = self.target.copy();
        if self.is_dir {
            self.pending = Vec::new();
            assert(self@.pending =~= Seq::empty());
            self.left_out = false;
            self.phase = CopyPhase::OpenDir;
        } else {
            job.current_file = name_or_empty(&self.sources[self.at]);
            self.phase = CopyPhase::Compare;
        }
    }

    fn go_to(&mut self, job: &mut CopyJobState, target: FsPath)
        requires
            old(self).has_source(),
        ensures
            final(self).with(final(job)) == old(self).with(old(job)).go_to(target@),
            final(self).phase == CopyPhase::Finished || final(self).has_source(),
    {
        let there = self.sources[self.at].same(&target);
        self.target = target;
        if there {
            self.one_done(job);
            self.next_source(job);
        } else if job.is_move {
            self.phase = CopyPhase::ProbeTarget;
        } else {
            self.start_copy(job);
        }
    }

    fn dir_settled(&mut self, job: &mut CopyJobState)
        requires
            old(self).has_source(),
        ensures
            final(self).with(final(job)) == old(self).with(old(job)).dir_settled(),
            final(self).phase == CopyPhase::Finished || final(self).has_source(),
    {
        if job.is_move && self.left_out {
            self.next_source(job);
        } else {
            self.source_copied(job);
        }
    }

    fn next_entry(&mut self, job: &mut CopyJobState)
        requires
            old(self).has_source(),
        ensures
            final(self).with(final(job)) == old(self).with(old(job)).next_entry(),
            final(self).phase == CopyPhase::Finished || final(self).has_source(),
    {
        let ghost before = self@.pending;
        match self.pending.pop() {
            None => {
                assert(before.len() == 0);
                self.dir_settled(job);
            },
            Some((from, to)) => {
                if job.cancelled {
                    self.pending.push((from, to));
                    assert(self@.pending =~= before);
                    self.finish(job);
                } else {
                    assert(self@.pending =~= before.drop_last());
                    assert(before.last() == (from@, to@));
                    self.from = from;
                    self.to = to;
                    self.phase = CopyPhase::InspectEntry;
                }
            },
        }
    }

    fn file_settled(&mut self, job: &mut CopyJobState, how: Settled)
        requires
            old(self).has_source(),
        ensures
            final(self).with(final(job)) == old(self).with(old(job)).file_settled(how),
            final(self).phase == CopyPhase::Finished || final(self).has_source(),
    {
        self.one_done(job);
        if self.is_dir {
            if how == Settled::LeftOut {
                self.left_out = true;
            }
            self.next_entry(job);
        } else if how == Settled::Copied || (how == Settled::Identical && job.is_move) {
            self.source_copied(job);
        } else {
            self.next_source(job);
        }
    }

    fn end(&mut self, job: &mut CopyJobState)
        ensures
            final(self).with(final(job)) == old(self).with(old(job)).ended(),
    {
        self.one_done(job);
        self.finish(job);
    }

    fn decided(&mut self, job: &mut CopyJobState, action: FileAction, identical: bool)
        requires
            old(self).has_source(),
        ensures
            final(self).with(final(job)) == old(self).with(old(job)).decided(action, identical),
            final(self).phase == CopyPhase::Finished || final(self).has_source(),
    {
        match action {
            FileAction::Copy => {
                self.phase = CopyPhase::CopyFile;
            },
            FileAction::Skip => {
                let how = if identical {
                    Settled::Identical
                } else {
                    Settled::LeftOut
                };
                self.file_settled(job, how);
            },
            FileAction::Ask => {
                self.phase = CopyPhase::Ask;
            },
        }
    }

    /// Goes on once it is known whether the source is a directory.
    pub fn on_source_inspected(&mut self, job: &mut CopyJobState, is_dir: bool)
        requires
            old(self).phase == CopyPhase::InspectSource,
            old(self).has_source(),
        ensures
            final(self).with(final(job)) == old(self).with(old(job)).source_inspected(is_dir),
            final(self).phase == CopyPhase::Finished || final(self).has_source(),
    {
        self.is_dir = is_dir;
        let source = self.sources[self.at].copy();
        if is_dir && self.dest.starts_with(&source) {
            let mut text = copy_text("Refusing unsafe operation: destination is inside source (");
            let shown = source.to_text();
            text.append(shown.as_str());
            text.append(")");
            note_error(job, text);
            self.next_source(job);
            return;
        }
        match source.file_name() {
            None => {
                self.next_source(job);
            },
            Some(name) => {
                let inside = match source.parent() {
                    Some(p) => p.same(&self.dest),
                    None => false,
                };
                if !job.is_move && inside {
                    self.phase = CopyPhase::ProbeName(1);
                } else {
                    let target = self.dest.join(name.as_str());
                    self.go_to(job, target);
                }
            },
        }
    }

    /// Goes on once it is known whether the name of the copy is taken.
    pub fn on_name_probed(&mut self, job: &mut CopyJobState, exists: bool)
        requires
            old(self).phase matches CopyPhase::ProbeName(k) && (exists ==> k < u32::MAX - 1),
            old(self).has_source(),
        ensures
            final(self).with(final(job)) == old(self).with(old(job)).name_probed(exists),
            final(self).phase == CopyPhase::Finished || final(self).has_source(),
    {
        match self.phase {
            CopyPhase::ProbeName(k) => {
                if exists {
                    self.phase = CopyPhase::ProbeName(k + 1);
                } else {
                    let target = make_copy_path(
                        &self.sources[self.at],
                        self.is_dir,
                        &self.dest,
                        k,
                    );
                    self.go_to(job, target);
                }
            },
            _ => {},
        }
    }

    /// Goes on once it is known whether something is at the target.
    pub fn on_target_probed(&mut self, job: &mut CopyJobState, exists: bool)
        requires
            old(self).phase == CopyPhase::ProbeTarget,
            old(self).has_source(),
        ensures
            final(self).with(final(job)) == old(self).with(old(job)).target_probed(exists),
            final(self).has_source(),
    {
        if exists {
            self.start_copy(job);
        } else {
            self.phase = CopyPhase::Rename;
        }
    }

    /// Goes on once the rename succeeded, for so many files and bytes, or did
    /// not.
    pub fn on_rename_tried(&mut self, job: &mut CopyJobState, moved: Option<(usize, u64)>)
        requires
            old(self).phase == CopyPhase::Rename,
            old(self).has_source(),
        ensures
            final(self).with(final(job)) == old(self).with(old(job)).rename_tried(moved),
            final(self).phase == CopyPhase::Finished || final(self).has_source(),
    {
        match moved {
            Some((files, bytes)) => {
                job.files_done = job.files_done.wrapping_add(files);
                job.bytes_copied = job.bytes_copied.wrapping_add(bytes);
                self.placed(job);
            },
            None => {
                self.start_copy(job);
            },
        }
    }

    /// Goes on with the entries of the directory `from`.
    pub fn on_dir_listed(&mut self, job: &mut CopyJobState, names: &Vec<String>)
        requires
            old(self).phase == CopyPhase::OpenDir,
            old(self).has_source(),
        ensures
            final(self).with(final(job)) == old(self).with(old(job)).dir_listed(texts(names@)),
            final(self).phase == CopyPhase::Finished || final(self).has_source(),
    {
        let ghost before = *self;
        let ghost shown = texts(names@);
        let ghost entries = Seq::new(
            shown.len(),
            |i: int|
                (
                    before@.from.join(shown[shown.len() - 1 - i]),
                    before@.to.join(shown[shown.len() - 1 - i]),
                ),
        );
        let n: usize = names.len();
        for i in 0..n
            invariant
                n == names@.len(),
                shown == texts(names@),
                entries.len() == n,
                entries == Seq::new(
                    shown.len(),
                    |i: int|
                        (
                            before@.from.join(shown[shown.len() - 1 - i]),
                            before@.to.join(shown[shown.len() - 1 - i]),
                        ),
                ),
                self.has_source() == before.has_source(),
                self@ == (RunView {
                    pending: before@.pending + entries.take(i as int),
                    ..before@
                }),
        {
            let ghost pending = self@.pending;
            let name = &names[n - 1 - i];
            let from = self.from.join(name.as_str());
            let to = self.to.join(name.as_str());
            self.pending.push((from, to));
            assert(entries[i as int] == (from@, to@));
            assert(self@.pending =~= pending.push((from@, to@)));
            assert(self@.pending =~= before@.pending + entries.take(i + 1));
        }
        assert(entries.take(n as int) =~= entries);
        self.next_entry(job);
    }

    /// Goes on once it is known whether the entry is a directory.
    pub fn on_entry_inspected(&mut self, job: &mut CopyJobState, is_dir: bool)
        requires
            old(self).phase == CopyPhase::InspectEntry,
            old(self).has_source(),
        ensures
            final(self).with(final(job)) == old(self).with(old(job)).entry_inspected(is_dir),
            final(self).has_source(),
    {
        if is_dir {
            self.phase = CopyPhase::OpenDir;
        } else {
            job.current_file = name_or_empty(&self.from);
            self.phase = CopyPhase::Compare;
        }
    }

    /// Goes on once the file is held against what is in its way.
    pub fn on_compared(
        &mut self,
        job: &mut CopyJobState,
        exists: bool,
        src: Option<FileFacts>,
        dst: Option<FileFacts>,
    )
        requires
            old(self).phase == CopyPhase::Compare,
            old(self).has_source(),
        ensures
            final(self).with(final(job)) == old(self).with(old(job)).compared(exists, src, dst),
            final(self).phase == CopyPhase::Finished || final(self).has_source(),
    {
        let name = name_or_empty(&self.from);
        let action = check_file_conflict(job, name.as_str(), exists, src, dst);
        self.decided(job, action, exists && files_agree(src, dst));
    }

    /// Goes on with the user's answer.
    pub fn on_answered(&mut self, job: &mut CopyJobState, choice: ConflictChoice)
        requires
            old(self).phase == CopyPhase::Ask,
            old(self).has_source(),
        ensures
            final(self).with(final(job)) == old(self).with(old(job)).answered(choice),
            final(self).phase == CopyPhase::Finished || final(self).has_source(),
    {
        let action = answer_conflict(job, choice);
        if choice == ConflictChoice::Abort {
            self.end(job);
        } else {
            self.decided(job, action, false);
        }
    }

    /// Goes on where the user ended the job in place of an answer.
    pub fn on_unanswered(&mut self, job: &mut CopyJobState)
        requires
            old(self).phase == CopyPhase::Ask,
            old(self).has_source(),
        ensures
            final(self).with(final(job)) == old(self).with(old(job)).unanswered(),
            final(self).phase == CopyPhase::Finished || final(self).has_source(),
    {
        job.conflict_query = None;
        self.end(job);
    }

    /// Goes on once the file is copied.
    pub fn on_file_copied(&mut self, job: &mut CopyJobState)
        requires
            old(self).phase == CopyPhase::CopyFile,
            old(self).has_source(),
        ensures
            final(self).with(final(job)) == old(self).with(old(job)).file_settled(
                Settled::Copied,
            ),
            final(self).phase == CopyPhase::Finished || final(self).has_source(),
    {
        self.file_settled(job, Settled::Copied);
    }

    /// Goes on once the original is in the recycle bin.
    pub fn on_recycled(&mut self, job: &mut CopyJobState)
        requires
            old(self).phase == CopyPhase::Recycle,
            old(self).has_source(),
        ensures
            final(self).with(final(job)) == old(self).with(old(job)).placed(),
            final(self).phase == CopyPhase::Finished || final(self).has_source(),
    {
        self.placed(job);
    }

    /// Ends the job where the original could not be removed.
    pub fn on_not_recycled(&mut self, job: &mut CopyJobState, message: &str)
        requires
            old(self).phase == CopyPhase::Recycle,
            old(self).has_source(),
        ensures
            final(self).with(final(job)) == old(self).with(old(job)).failed(message@),
    {
        self.fail(job, message);
    }

    /// Ends the job where the file system refused to open the directory or to
    /// copy the file.
    pub fn on_refused(&mut self, job: &mut CopyJobState, interrupted: bool, message: &str)
        requires
            old(self).phase == CopyPhase::OpenDir || old(self).phase == CopyPhase::CopyFile,
            old(self).has_source(),
        ensures
            final(self).with(final(job)) == old(self).with(old(job)).refused(interrupted, message@),
    {
        if interrupted {
            self.finish(job);
        } else {
            self.fail(job, message);
        }
    }

    /// What the recycle bin's refusal of the original is reported as.
    pub fn recycle_failure(&self) -> (r: String)
        requires
            self.has_source(),
        ensures
            r@ == recycle_failure(self@.sources[self@.at as int]),
    {
        let mut r = copy_text("Move safety stop: couldn't send original to Recycle Bin: ");
        let shown = self.sources[self.at].to_text();
        r.append(shown.as_str());
        r
    }
}

// ---------------------------------------------------------------------------
// What every step keeps
// ---------------------------------------------------------------------------

/// What a job is told.
pub enum CopyReply {
    SourceIsDir(bool),
    NameTaken(bool),
    TargetTaken(bool),
    Renamed(Option<(usize, u64)>),
    Entries(Seq<Seq<char>>),
    EntryIsDir(bool),
    Facts(bool, Option<FileFacts>, Option<FileFacts>),
    Answer(ConflictChoice),
    NoAnswer,
    Copied,
    Recycled,
    NotRecycled(Seq<char>),
    Refused(bool, Seq<char>),
}

impl Work {
    /// Whether `reply` is one that the job waits for.
    pub open spec fn awaits(self, reply: CopyReply) -> bool {
        match reply {
            CopyReply::SourceIsDir(_) => self.run.phase == CopyPhase::InspectSource,
            CopyReply::NameTaken(exists) => self.run.phase matches CopyPhase::ProbeName(k) && (exists
                ==> k < u32::MAX - 1),
            CopyReply::TargetTaken(_) => self.run.phase == CopyPhase::ProbeTarget,
            CopyReply::Renamed(_) => self.run.phase == CopyPhase::Rename,
            CopyReply::Entries(_) => self.run.phase == CopyPhase::OpenDir,
            CopyReply::EntryIsDir(_) => self.run.phase == CopyPhase::InspectEntry,
            CopyReply::Facts(_, _, _) => self.run.phase == CopyPhase::Compare,
            CopyReply::Answer(_) => self.run.phase == CopyPhase::Ask,
            CopyReply::NoAnswer => self.run.phase == CopyPhase::Ask,
            CopyReply::Copied => self.run.phase == CopyPhase::CopyFile,
            CopyReply::Recycled => self.run.phase == CopyPhase::Recycle,
            CopyReply::NotRecycled(_) => self.run.phase == CopyPhase::Recycle,
            CopyReply::Refused(_, _) => self.run.phase == CopyPhase::OpenDir || self.run.phase
                == CopyPhase::CopyFile,
        }
    }

    /// The job after `reply`.
    pub open spec fn step(self, reply: CopyReply) -> Work {
        match reply {
            CopyReply::SourceIsDir(is_dir) => self.source_inspected(is_dir),
            CopyReply::NameTaken(exists) => self.name_probed(exists),
            CopyReply::TargetTaken(exists) => self.target_probed(exists),
            CopyReply::Renamed(moved) => self.rename_tried(moved),
            CopyReply::Entries(names) => self.dir_listed(names),
            CopyReply::EntryIsDir(is_dir) => self.entry_inspected(is_dir),
            CopyReply::Facts(exists, src, dst) => self.compared(exists, src, dst),
            CopyReply::Answer(choice) => self.answered(choice),
            CopyReply::NoAnswer => self.unanswered(),
            CopyReply::Copied => self.file_settled(Settled::Copied),
            CopyReply::Recycled => self.placed(),
            CopyReply::NotRecycled(message) => self.failed(message),
            CopyReply::Refused(interrupted, message) => self.refused(interrupted, message),
        }
    }

    /// Whether the work on the source has a target.
    pub open spec fn has_target(self) -> bool {
        match self.run.phase {
            CopyPhase::InspectSource | CopyPhase::ProbeName(_) | CopyPhase::Finished => false,
            _ => true,
        }
    }

    /// Whether the work is on one file or directory of the source.
    pub open spec fn is_copying(self) -> bool {
        match self.run.phase {
            CopyPhase::OpenDir | CopyPhase::InspectEntry | CopyPhase::Compare | CopyPhase::Ask
            | CopyPhase::CopyFile => true,
            _ => false,
        }
    }

    /// Whether `to` lies at the same place below the target as `from` below
    /// the source.
    pub open spec fn corresponds(self, from: PathView, to: PathView) -> bool {
        from.starts_with(self.source()) && to.starts_with(self.run.target) && from.names.skip(
            self.source().names.len() as int,
        ) == to.names.skip(self.run.target.names.len() as int)
    }

    /// What holds of a job before and after every step.
    pub open spec fn sound(self) -> bool {
        &&& self.job.done == (self.run.phase == CopyPhase::Finished)
        &&& self.run.phase != CopyPhase::Finished ==> self.run.at < self.run.sources.len()
        &&& self.run.phase matches CopyPhase::ProbeName(k) ==> {
            &&& k >= 1
            &&& !self.job.is_move
            &&& self.source().file_name() is Some
            &&& self.run.is_dir ==> !self.run.dest.starts_with(self.source())
        }
        &&& self.has_target() ==> {
            &&& self.run.target.lies_in(self.run.dest)
            &&& !self.run.target.is_same(self.source())
            &&& self.run.is_dir ==> !self.run.dest.starts_with(self.source())
        }
        &&& self.is_copying() ==> {
            &&& self.corresponds(self.run.from, self.run.to)
            &&& !self.run.is_dir ==> self.run.from == self.source() && self.run.to
                == self.run.target
            &&& self.run.is_dir ==> forall|i: int|
                0 <= i < self.run.pending.len() ==> self.corresponds(
                    (#[trigger] self.run.pending[i]).0,
                    self.run.pending[i].1,
                )
        }
        &&& self.run.phase == CopyPhase::OpenDir || self.run.phase == CopyPhase::InspectEntry
            ==> self.run.is_dir
        &&& self.run.phase == CopyPhase::ProbeTarget || self.run.phase == CopyPhase::Rename
            || self.run.phase == CopyPhase::Recycle ==> self.job.is_move
        &&& self.run.phase == CopyPhase::Recycle && self.run.is_dir ==> !self.run.left_out
            && self.run.pending.len() == 0
    }
}

/// A source corresponds to its target, and entries of corresponding
/// directories correspond.
proof fn entries_correspond(w: Work, from: PathView, to: PathView, name: Seq<char>)
    ensures
        w.corresponds(w.source(), w.run.target),
        w.corresponds(from, to) ==> w.corresponds(from.join(name), to.join(name)),
{
    let s = w.source();
    let t = w.run.target;
    assert(s.names.take(s.names.len() as int) =~= s.names);
    assert(t.names.take(t.names.len() as int) =~= t.names);
    assert(s.names.skip(s.names.len() as int) =~= t.names.skip(t.names.len() as int));
    if w.corresponds(from, to) {
        entry_lies_in_directory(from, name);
        entry_lies_in_directory(to, name);
        starts_with_is_transitive(from.join(name), from, s);
        starts_with_is_transitive(to.join(name), to, t);
        assert(from.join(name).names.skip(s.names.len() as int) =~= from.names.skip(
            s.names.len() as int,
        ).push(name));
        assert(to.join(name).names.skip(t.names.len() as int) =~= to.names.skip(
            t.names.len() as int,
        ).push(name));
    }
}

impl Work {
    /// The work on a source goes on.
    spec fn alive(self) -> bool {
        !self.job.done && self.run.at < self.run.sources.len()
    }

    /// The source can go to its target.
    spec fn aimed(self) -> bool {
        &&& self.alive()
        &&& self.run.target.lies_in(self.run.dest)
        &&& !self.run.target.is_same(self.source())
        &&& self.run.is_dir ==> !self.run.dest.starts_with(self.source())
    }

    /// What waits lies where it should.
    spec fn in_order(self) -> bool {
        self.run.is_dir ==> forall|i: int|
            0 <= i < self.run.pending.len() ==> self.corresponds(
                (#[trigger] self.run.pending[i]).0,
                self.run.pending[i].1,
            )
    }

    /// The file that is worked on lies where it should.
    spec fn in_place(self) -> bool {
        self.corresponds(self.run.from, self.run.to) && (!self.run.is_dir ==> self.run.from
            == self.source() && self.run.to == self.run.target)
    }

    /// What `later` owes to `self`.
    pub open spec fn leads_to(self, later: Work) -> bool {
        &&& later.run.sources == self.run.sources
        &&& later.run.dest == self.run.dest
        &&& later.run.at >= self.run.at
        &&& later.job.is_move == self.job.is_move
        &&& self.job.pasted_names.is_prefix_of(later.job.pasted_names)
        &&& self.job.placed_sources.is_prefix_of(later.job.placed_sources)
        &&& self.job.skipped_identical.is_prefix_of(later.job.skipped_identical)
        &&& self.job.overwrite_all ==> later.job.overwrite_all
        &&& self.job.skip_all ==> later.job.skip_all
        &&& self.job.error is Some ==> later.job.error == self.job.error
        &&& self.job.cancelled ==> later.job.cancelled
    }
}

proof fn start_copy_is_sound(w: Work)
    requires
        w.aimed(),
    ensures
        w.start_copy().sound(),
        w.leads_to(w.start_copy()),
{
    entries_correspond(w, w.source(), w.run.target, Seq::empty());
}

proof fn go_to_is_sound(w: Work, target: PathView)
    requires
        w.alive(),
        target.lies_in(w.run.dest),
        w.run.is_dir ==> !w.run.dest.starts_with(w.source()),
    ensures
        w.go_to(target).sound(),
        w.leads_to(w.go_to(target)),
{
    let v = Work { run: RunView { target, ..w.run }, ..w };
    if !w.source().is_same(target) {
        start_copy_is_sound(v);
    }
}

proof fn next_entry_is_sound(w: Work)
    requires
        w.aimed(),
        w.in_order(),
        w.run.is_dir,
    ensures
        w.next_entry().sound(),
        w.leads_to(w.next_entry()),
{
    if w.run.pending.len() > 0 && !w.job.cancelled {
        let v = w.next_entry();
        assert(w.corresponds(w.run.pending[w.run.pending.len() - 1].0, w.run.pending.last().1));
        assert forall|i: int| 0 <= i < v.run.pending.len() implies v.corresponds(
            (#[trigger] v.run.pending[i]).0,
            v.run.pending[i].1,
        ) by {
            assert(w.corresponds(w.run.pending[i].0, w.run.pending[i].1));
        }
    }
}

proof fn file_settled_is_sound(w: Work, how: Settled)
    requires
        w.aimed(),
        w.in_order(),
    ensures
        w.file_settled(how).sound(),
        w.leads_to(w.file_settled(how)),
{
    let d = w.one_done();
    let v = Work {
        run: RunView { left_out: d.run.left_out || how == Settled::LeftOut, ..d.run },
        ..d
    };
    if v.run.is_dir {
        assert forall|i: int| 0 <= i < v.run.pending.len() implies v.corresponds(
            (#[trigger] v.run.pending[i]).0,
            v.run.pending[i].1,
        ) by {
            assert(w.corresponds(w.run.pending[i].0, w.run.pending[i].1));
        }
        next_entry_is_sound(v);
    }
}

proof fn decided_is_sound(w: Work, action: FileAction, identical: bool)
    requires
        w.aimed(),
        w.in_order(),
        w.in_place(),
    ensures
        w.decided(action, identical).sound(),
        w.leads_to(w.decided(action, identical)),
{
    let v = w.decided(action, identical);
    match action {
        FileAction::Skip => {
            file_settled_is_sound(w, Settled::Identical);
            file_settled_is_sound(w, Settled::LeftOut);
        },
        _ => {
            assert(v.corresponds(v.run.from, v.run.to));
            assert(v.run.is_dir ==> forall|i: int|
                0 <= i < v.run.pending.len() ==> v.corresponds(
                    (#[trigger] v.run.pending[i]).0,
                    v.run.pending[i].1,
                )) by {
                assert forall|i: int|
                    v.run.is_dir && 0 <= i < v.run.pending.len() implies v.corresponds(
                    (#[trigger] v.run.pending[i]).0,
                    v.run.pending[i].1,
                ) by {
                    assert(w.corresponds(w.run.pending[i].0, w.run.pending[i].1));
                }
            }
        },
    }
}

/// The entries of a directory, ready to wait.
proof fn listed_entries_are_in_order(w: Work, names: Seq<Seq<char>>)
    requires
        w.in_order(),
        w.run.is_dir,
        w.corresponds(w.run.from, w.run.to),
    ensures
        (Work {
            run: RunView {
                pending: w.run.pending + Seq::new(
                    names.len(),
                    |i: int|
                        (
                            w.run.from.join(names[names.len() - 1 - i]),
                            w.run.to.join(names[names.len() - 1 - i]),
                        ),
                ),
                ..w.run
            },
            ..w
        }).in_order(),
{
    let entries = Seq::new(
        names.len(),
        |i: int|
            (
                w.run.from.join(names[names.len() - 1 - i]),
                w.run.to.join(names[names.len() - 1 - i]),
            ),
    );
    let v = Work { run: RunView { pending: w.run.pending + entries, ..w.run }, ..w };
    assert forall|i: int| 0 <= i < v.run.pending.len() implies v.corresponds(
        (#[trigger] v.run.pending[i]).0,
        v.run.pending[i].1,
    ) by {
        let n = w.run.pending.len();
        if i < n {
            assert(w.corresponds(w.run.pending[i].0, w.run.pending[i].1));
        } else {
            let name = names[names.len() - 1 - (i - n)];
            assert(v.run.pending[i] == entries[i - n]);
            entries_correspond(w, w.run.from, w.run.to, name);
            assert(w.corresponds(w.run.from.join(name), w.run.to.join(name)));
        }
    }
}

/// Every step of a job keeps what is safe: no directory is copied into
/// itself, what is written lies at the same place below the target as what is
/// read below the source, and originals go in moves alone. It leaves the
/// sources and the destination as they are, goes back to no earlier source,
/// and takes back no name that was placed or skipped, no choice that holds
/// for the whole job, and no message about an error.
#[verifier::rlimit(60)]
#[verifier::spinoff_prover]
pub proof fn every_step_is_sound(w: Work, reply: CopyReply)
    requires
        w.sound(),
        w.awaits(reply),
    ensures
        w.step(reply).sound(),
        w.leads_to(w.step(reply)),
{
    match reply {
        CopyReply::SourceIsDir(is_dir) => {
            let name = shown_name(w.source());
            entry_lies_in_directory(w.run.dest, name);
            let v = Work { run: RunView { is_dir, ..w.run }, ..w };
            if !(is_dir && w.run.dest.starts_with(w.source())) {
                go_to_is_sound(v, w.run.dest.join(name));
            }
        },
        CopyReply::NameTaken(exists) => {
            match w.run.phase {
                CopyPhase::ProbeName(k) => {
                    let name = copy_name(shown_name(w.source()), w.run.is_dir, k as nat);
                    entry_lies_in_directory(w.run.dest, name);
                    go_to_is_sound(w, w.run.dest.join(name));
                },
                _ => {},
            }
        },
        CopyReply::TargetTaken(_) | CopyReply::Renamed(_) => {
            start_copy_is_sound(w);
        },
        CopyReply::Entries(names) => {
            let entries = Seq::new(
                names.len(),
                |i: int|
                    (
                        w.run.from.join(names[names.len() - 1 - i]),
                        w.run.to.join(names[names.len() - 1 - i]),
                    ),
            );
            listed_entries_are_in_order(w, names);
            next_entry_is_sound(
                Work { run: RunView { pending: w.run.pending + entries, ..w.run }, ..w },
            );
        },
        CopyReply::EntryIsDir(is_dir) => {
            let v = w.step(reply);
            assert(v.corresponds(v.run.from, v.run.to));
            assert forall|i: int| 0 <= i < v.run.pending.len() implies v.corresponds(
                (#[trigger] v.run.pending[i]).0,
                v.run.pending[i].1,
            ) by {
                assert(w.corresponds(w.run.pending[i].0, w.run.pending[i].1));
            }
        },
        CopyReply::Facts(exists, src, dst) => {
            let v = Work {
                job: after_comparison(w.job, shown_name(w.run.from), exists, src, dst),
                ..w
            };
            job_change_keeps_order(w, v);
            decided_is_sound(
                v,
                conflict_action(w.job, exists, src, dst),
                exists && same_file(src, dst),
            );
        },
        CopyReply::Answer(choice) => {
            let v = Work { job: after_choice(w.job, choice), ..w };
            job_change_keeps_order(w, v);
            decided_is_sound(v, choice_action(choice), false);
        },
        CopyReply::Copied => {
            file_settled_is_sound(w, Settled::Copied);
        },
        _ => {},
    }
}

/// What lies where it should does so whatever the job says.
proof fn job_change_keeps_order(w: Work, v: Work)
    requires
        w.run == v.run,
        w.in_order(),
        w.in_place(),
    ensures
        v.in_order(),
        v.in_place(),
{
    assert(v.corresponds(v.run.from, v.run.to));
    assert forall|i: int| v.run.is_dir && 0 <= i < v.run.pending.len() implies v.corresponds(
        (#[trigger] v.run.pending[i]).0,
        v.run.pending[i].1,
    ) by {
        assert(w.corresponds(w.run.pending[i].0, w.run.pending[i].1));
    }
}

/// A job that has just begun is sound.
pub proof fn a_new_job_is_sound(w: Work)
    requires
        !w.job.done,
    ensures
        w.begin(0).sound(),
{
}

/// What a sound job reads lies in its source and what it writes lies in its
/// destination; a directory that is copied does not hold the destination.
pub proof fn a_job_stays_in_its_places(w: Work)
    requires
        w.sound(),
        w.is_copying(),
    ensures
        w.run.from.starts_with(w.source()),
        w.run.to.starts_with(w.run.dest),
        !w.run.to.is_same(w.run.dest),
        w.run.is_dir ==> !w.run.dest.starts_with(w.source()) && !w.run.target.starts_with(
            w.source(),
        ),
{
    let t = w.run.target;
    let d = w.run.dest;
    let s = w.source();
    assert(t.starts_with(d));
    starts_with_is_transitive(w.run.to, t, d);
    if w.run.is_dir && t.starts_with(s) {
        if s.names.len() < t.names.len() {
            assert(d.names.take(s.names.len() as int) =~= t.names.take(s.names.len() as int));
            assert(d.starts_with(s));
        } else {
            assert(t.names.take(s.names.len() as int) =~= t.names);
            assert(t.is_same(s));
        }
    }
}

/// A copy removes nothing: it neither renames a source nor sends one to the
/// recycle bin.
pub proof fn a_copy_removes_nothing(w: Work)
    requires
        w.sound(),
        !w.job.is_move,
    ensures
        w.run.phase != CopyPhase::Rename,
        w.run.phase != CopyPhase::Recycle,
{
}

/// An original goes to the recycle bin only in a move, and only once its file
/// was copied or is at the target already; a directory goes once no entry of
/// it waits and none was left out.
#[verifier::rlimit(60)]
#[verifier::spinoff_prover]
pub proof fn originals_go_last(w: Work, reply: CopyReply)
    requires
        w.sound(),
        w.awaits(reply),
        w.step(reply).run.phase == CopyPhase::Recycle,
    ensures
        w.job.is_move,
        w.step(reply).source() == w.source(),
        w.run.is_dir ==> w.step(reply).run.pending.len() == 0 && !w.run.left_out && !w.step(
            reply,
        ).run.left_out,
        !w.run.is_dir ==> match reply {
            CopyReply::Copied => true,
            CopyReply::Facts(exists, src, dst) => exists && src is Some && dst is Some && alike(
                src->0,
                dst->0,
            ),
            _ => false,
        },
{
    match reply {
        CopyReply::SourceIsDir(_) => {},
        CopyReply::NameTaken(_) => {},
        CopyReply::TargetTaken(_) => {},
        CopyReply::Renamed(_) => {},
        CopyReply::Entries(_) => {},
        CopyReply::EntryIsDir(_) => {},
        CopyReply::Facts(_, _, _) => {},
        CopyReply::Answer(choice) => match choice {
            ConflictChoice::Overwrite => {},
            ConflictChoice::OverwriteAll => {},
            ConflictChoice::Skip => {},
            ConflictChoice::SkipAll => {},
            ConflictChoice::Abort => {},
        },
        CopyReply::NoAnswer => {},
        CopyReply::Copied => {},
        CopyReply::Recycled => {},
        CopyReply::NotRecycled(_) => {},
        CopyReply::Refused(_, _) => {},
    }
}

/// What the user keeps out of a move stays: a file that is left out, or at
/// which the job is ended, is neither removed nor counted as placed.
pub proof fn what_is_left_out_stays(w: Work, choice: ConflictChoice)
    requires
        w.sound(),
        w.run.phase == CopyPhase::Ask,
        choice_action(choice) == FileAction::Skip,
        w.job.is_move,
    ensures
        w.answered(choice).run.phase != CopyPhase::Recycle,
        w.answered(choice).run.phase != CopyPhase::Rename,
        w.answered(choice).job.pasted_names == w.job.pasted_names,
        w.answered(choice).job.placed_sources == w.job.placed_sources,
        choice == ConflictChoice::Abort ==> w.answered(choice).job.done,
        w.unanswered().job.done,
        w.unanswered().job.pasted_names == w.job.pasted_names,
        w.unanswered().job.placed_sources == w.job.placed_sources,
        w.run.is_dir && w.answered(choice).run.phase == CopyPhase::InspectEntry ==> w.answered(
            choice,
        ).run.left_out,
{
}

/// A directory of which a file was left out stays in a move: as long as the
/// work on it goes on it is known that something was left out, and at its end
/// the original is neither removed nor counted as placed.
pub proof fn an_incomplete_directory_stays(w: Work, reply: CopyReply)
    requires
        w.sound(),
        w.awaits(reply),
        w.is_copying(),
        w.run.is_dir,
        w.run.left_out,
        w.job.is_move,
    ensures
        w.step(reply).run.phase != CopyPhase::Recycle,
        w.step(reply).job.pasted_names == w.job.pasted_names,
        w.step(reply).job.placed_sources == w.job.placed_sources,
        w.step(reply).is_copying() ==> w.step(reply).run.at == w.run.at && w.step(
            reply,
        ).run.left_out,
{
}

/// What may follow once the target of a source is known.
proof fn phases_after_a_target(w: Work, target: PathView)
    ensures
        w.go_to(target).run.phase != CopyPhase::Rename,
        w.go_to(target).run.phase != CopyPhase::CopyFile,
{
}

/// What may follow once a file is settled.
proof fn phases_after_a_file(w: Work)
    ensures
        forall|how: Settled|
            (#[trigger] w.file_settled(how)).run.phase != CopyPhase::Rename && w.file_settled(
                how,
            ).run.phase != CopyPhase::CopyFile,
{
}

/// Nothing is replaced unasked: a source is renamed only where nothing is at
/// its target, and a file is copied only where nothing is in its way or the
/// user chose to replace it or every such file.
pub proof fn nothing_is_replaced_unasked(w: Work, reply: CopyReply)
    requires
        w.sound(),
        w.awaits(reply),
    ensures
        w.step(reply).run.phase == CopyPhase::Rename ==> reply == CopyReply::TargetTaken(false),
        w.step(reply).run.phase == CopyPhase::CopyFile ==> match reply {
            CopyReply::Facts(present, src, dst) => present ==> w.job.overwrite_all && !(src is Some
                && dst is Some && alike(src->0, dst->0)),
            CopyReply::Answer(choice) => choice == ConflictChoice::Overwrite || choice
                == ConflictChoice::OverwriteAll,
            _ => false,
        },
{
    match reply {
        CopyReply::SourceIsDir(is_dir) => {
            let v = Work { run: RunView { is_dir, ..w.run }, ..w };
            phases_after_a_target(v, w.run.dest.join(shown_name(w.source())));
        },
        CopyReply::NameTaken(_) => {
            match w.run.phase {
                CopyPhase::ProbeName(k) => {
                    phases_after_a_target(
                        w,
                        w.run.dest.join(
                            copy_name(shown_name(w.source()), w.run.is_dir, k as nat),
                        ),
                    );
                },
                _ => {},
            }
        },
        CopyReply::Entries(_) => {},
        CopyReply::Facts(exists, src, dst) => {
            let v = Work {
                job: after_comparison(w.job, shown_name(w.run.from), exists, src, dst),
                ..w
            };
            phases_after_a_file(v);
        },
        CopyReply::Answer(choice) => {
            phases_after_a_file(Work { job: after_choice(w.job, choice), ..w });
        },
        CopyReply::Copied => {
            phases_after_a_file(w);
        },
        _ => {},
    }
}

/// The user's wish to end the job is met before the next source and before
/// the next entry of a directory.
pub proof fn cancelling_stops(w: Work, i: nat)
    requires
        w.job.cancelled,
    ensures
        w.begin(i) == w.finished(),
        w.run.pending.len() > 0 ==> w.next_entry() == w.finished(),
{
}

// ---------------------------------------------------------------------------
// What becomes of a file in the way
// ---------------------------------------------------------------------------

/// Whether two files have one size and times less than two seconds apart, in nanoseconds.
pub open spec fn alike(x: FileFacts, y: FileFacts) -> bool {
    x.size == y.size && x.modified is Some && y.modified is Some && x.modified->0 - y.modified->0
        < 2_000_000_000 && y.modified->0 - x.modified->0 < 2_000_000_000
}

/// A file that differs from what is in its way, in its size or by two seconds or more in its time,
/// or of which that is not known, is asked about: it is neither copied, nor skipped as identical,
/// nor removed.
pub proof fn a_different_file_is_asked_about(
    w: Work,
    src: Option<FileFacts>,
    dst: Option<FileFacts>,
)
    requires
        !w.job.skip_all,
        !w.job.overwrite_all,
        src is None || dst is None || (src->0).size != (dst->0).size || (src->0).modified is None
            || (dst->0).modified is None || (src->0).modified->0 - (dst->0).modified->0
            >= 2_000_000_000 || (dst->0).modified->0 - (src->0).modified->0 >= 2_000_000_000,
    ensures
        conflict_action(w.job, true, src, dst) == FileAction::Ask,
        w.compared(true, src, dst).run == (RunView { phase: CopyPhase::Ask, ..w.run }),
        w.compared(true, src, dst).job.skipped_identical == w.job.skipped_identical,
        w.compared(true, src, dst).job.placed_sources == w.job.placed_sources,
        w.compared(true, src, dst).job.files_done == w.job.files_done,
        w.compared(true, src, dst).job.conflict_query matches Some(q) && {
            &&& q.file_name == shown_name(w.run.from)
            &&& src matches Some(f) ==> q.src_size == f.size && q.src_modified == f.modified
            &&& dst matches Some(f) ==> q.dst_size == f.size && q.dst_modified == f.modified
        },
{
}

/// A file that is at its target already, with the same size and less than two seconds apart, is
/// skipped whatever the user chose, and its name is noted; in a move the original of such a file
/// goes.
pub proof fn a_file_that_is_there_is_skipped(w: Work, x: FileFacts, y: FileFacts)
    requires
        alike(x, y),
    ensures
        conflict_action(w.job, true, Some(x), Some(y)) == FileAction::Skip,
        w.compared(true, Some(x), Some(y)).job.skipped_identical == w.job.skipped_identical.push(
            shown_name(w.run.from),
        ),
        w.compared(true, Some(x), Some(y)).run.phase != CopyPhase::Ask,
        w.compared(true, Some(x), Some(y)).run.phase != CopyPhase::CopyFile,
        !w.run.is_dir && w.job.is_move ==> w.compared(true, Some(x), Some(y)).run.phase
            == CopyPhase::Recycle,
{
}

/// A file is copied where nothing is in its way; one that differs from what is in its way is
/// copied or left as the user chose for the whole job, and one that is left is not taken for
/// identical: in a move its original stays.
pub proof fn a_standing_choice_decides(w: Work, x: FileFacts, y: FileFacts)
    requires
        !alike(x, y),
    ensures
        w.compared(false, Some(x), None).run.phase == CopyPhase::CopyFile,
        w.compared(false, Some(x), None).job == w.job,
        w.job.skip_all ==> conflict_action(w.job, true, Some(x), Some(y)) == FileAction::Skip
            && w.compared(true, Some(x), Some(y)).job.skipped_identical
            == w.job.skipped_identical && (!w.run.is_dir ==> w.compared(
            true,
            Some(x),
            Some(y),
        ).run.phase != CopyPhase::Recycle && w.compared(
            true,
            Some(x),
            Some(y),
        ).job.placed_sources == w.job.placed_sources),
        w.job.overwrite_all && !w.job.skip_all ==> w.compared(true, Some(x), Some(y)).run.phase
            == CopyPhase::CopyFile && w.compared(true, Some(x), Some(y)).job == w.job,
{
}

/// The user's answers: to replace copies this file, to leave it keeps both, and each can hold for
/// all files to come; to end the job ends it, and no answer is forgotten or taken twice.
pub proof fn the_answer_is_followed(w: Work, choice: ConflictChoice)
    ensures
        choice == ConflictChoice::Overwrite || choice == ConflictChoice::OverwriteAll ==> w.answered(
            choice,
        ).run.phase == CopyPhase::CopyFile,
        choice == ConflictChoice::Skip || choice == ConflictChoice::SkipAll ==> w.answered(
            choice,
        ).run.phase != CopyPhase::CopyFile && (!w.run.is_dir ==> w.answered(choice).run.phase
            != CopyPhase::Recycle && w.answered(choice).job.placed_sources
            == w.job.placed_sources),
        choice == ConflictChoice::Abort ==> w.answered(choice).run.phase == CopyPhase::Finished
            && w.answered(choice).job.cancelled,
        choice != ConflictChoice::Abort ==> w.answered(choice).job.cancelled == w.job.cancelled,
        w.answered(choice).job.overwrite_all == (w.job.overwrite_all || choice
            == ConflictChoice::OverwriteAll),
        w.answered(choice).job.skip_all == (w.job.skip_all || choice == ConflictChoice::SkipAll),
        w.answered(choice).job.conflict_query is None,
        w.answered(choice).job.conflict_answer is None,
        w.answered(choice).job.skipped_identical == w.job.skipped_identical,
{
}

// ---------------------------------------------------------------------------
// Where a source goes
// ---------------------------------------------------------------------------

/// The copies of a file are named by what stands before its extension: " copy" and, from the
/// second on, the number stand between that and the extension. The copies of a folder have it at
/// their end, and so have those of a file without an extension.
pub proof fn copies_are_named_after_the_original(stem: Seq<char>, ext: Seq<char>, k: nat)
    requires
        stem.len() > 0,
        forall|i: int| 0 <= i < ext.len() ==> #[trigger] ext[i] != '.',
        k >= 2,
    ensures
        copy_name(stem + seq!['.'] + ext, false, 1) == stem + " copy."@ + ext,
        copy_name(stem + seq!['.'] + ext, false, k) == stem + " copy "@ + decimal(k) + "."@ + ext,
        copy_name(stem, true, 1) == stem + " copy"@,
        copy_name(stem, true, k) == stem + " copy "@ + decimal(k),
        copy_name(ext, false, 1) == ext + " copy"@,
        copy_name(ext, false, k) == ext + " copy "@ + decimal(k),
{
    reveal_strlit(" copy");
    reveal_strlit(" copy ");
    reveal_strlit(" copy.");
    reveal_strlit(".");
    crate::paths::the_last_dot_splits_a_name(stem, ext);
    let name = stem + seq!['.'] + ext;
    assert(copy_name(name, false, 1) =~= stem + " copy."@ + ext);
    assert(copy_name(name, false, k) =~= stem + " copy "@ + decimal(k) + "."@ + ext);
    assert(copy_name(stem, true, 1) =~= stem + " copy"@);
    assert(copy_name(stem, true, k) =~= stem + " copy "@ + decimal(k));
    assert(copy_name(ext, false, 1) =~= ext + " copy"@);
    assert(copy_name(ext, false, k) =~= ext + " copy "@ + decimal(k));
}

/// A source goes to the entry of its name in the destination. A folder that holds the destination
/// is refused, what has no name is passed over, and what is copied into its own folder gets a
/// name of its own there.
pub proof fn a_source_keeps_its_name(w: Work, is_dir: bool)
    requires
        w.run.at < w.run.sources.len(),
    ensures
        ({
            let s = w.source();
            let d = w.run.dest;
            let v = w.source_inspected(is_dir);
            let holds = is_dir && exists|rest: Seq<Seq<char>>|
                d.prefix == s.prefix && d.rooted == s.rooted && d.names == #[trigger] (s.names
                    + rest);
            let named = s.names.len() > 0 && s.names.last() != seq!['.'] && s.names.last() != seq![
                '.',
                '.',
            ];
            let inside = named && s.prefix == d.prefix && s.rooted == d.rooted
                && s.names.drop_last() == d.names;
            &&& holds ==> v == (Work { job: v.job, run: RunView { is_dir, ..w.run } }).next_source()
                && v.job.error is Some && v.job.placed_sources == w.job.placed_sources
            &&& !holds && !named ==> v == (Work {
                run: RunView { is_dir, ..w.run },
                ..w
            }).next_source()
            &&& !holds && inside && !w.job.is_move ==> v.run.phase == CopyPhase::ProbeName(1)
                && v.run.at == w.run.at
            &&& !holds && inside && w.job.is_move ==> v == (Work {
                run: RunView { is_dir, target: v.run.target, ..w.run },
                ..w
            }).one_done().next_source()
            &&& !holds && named && !inside ==> v.run.at == w.run.at && v.run.target.names
                == d.names.push(s.names.last()) && v.run.target.prefix == d.prefix
                && v.run.target.rooted == d.rooted && v.job.error == w.job.error
            &&& !holds && named && !inside && w.job.is_move ==> v.run.phase
                == CopyPhase::ProbeTarget
            &&& !holds && named && !inside && !w.job.is_move && is_dir ==> v.run.phase
                == CopyPhase::OpenDir && v.run.from == s && v.run.to == v.run.target
                && v.run.pending.len() == 0 && !v.run.left_out
            &&& !holds && named && !inside && !w.job.is_move && !is_dir ==> v.run.phase
                == CopyPhase::Compare && v.run.from == s && v.run.to == v.run.target
        }),
{
    let s = w.source();
    let d = w.run.dest;
    crate::paths::a_path_goes_on_from_what_it_lies_within(d, s);
    crate::paths::the_parent_has_all_names_but_the_last(s);
    if s.names.len() > 0 {
        crate::paths::an_entry_has_the_names_of_its_folder(d, s.names.last());
        crate::paths::same_paths_have_the_same_parts(s, d.join(s.names.last()));
        assert(s.names.drop_last().push(s.names.last()) =~= s.names);
        assert(d.names.push(s.names.last()).drop_last() =~= d.names);
    }
}

/// The name of a copy is the first that is not taken, counted from the first on.
pub proof fn the_first_free_name_is_taken(w: Work, k: u32)
    requires
        w.run.phase == CopyPhase::ProbeName(k),
        k < u32::MAX,
        w.run.at < w.run.sources.len(),
        !w.job.is_move,
    ensures
        w.name_probed(true) == (Work {
            run: RunView { phase: CopyPhase::ProbeName((k + 1) as u32), ..w.run },
            ..w
        }),
        w.name_probed(false).run.target.names == w.run.dest.names.push(
            copy_name(shown_name(w.source()), w.run.is_dir, k as nat),
        ),
        !w.source().is_same(w.name_probed(false).run.target) ==> w.name_probed(false).run.from
            == w.source() && w.name_probed(false).run.to == w.name_probed(false).run.target,
{
}

/// The entries of a directory are copied to the entries of the same names, in the order in which
/// they were listed, and before those of other directories that wait.
pub proof fn entries_are_copied_in_their_order(w: Work, names: Seq<Seq<char>>)
    requires
        !w.job.cancelled,
        names.len() > 0,
    ensures
        ({
            let v = w.dir_listed(names);
            &&& v.run.phase == CopyPhase::InspectEntry
            &&& v.run.from == w.run.from.join(names[0])
            &&& v.run.to == w.run.to.join(names[0])
            &&& v.run.pending.len() == w.run.pending.len() + names.len() - 1
            &&& v.run.pending.take(w.run.pending.len() as int) == w.run.pending
            &&& forall|i: int|
                1 <= i < names.len() ==> v.run.pending[v.run.pending.len() - i] == (
                    w.run.from.join(#[trigger] names[i]),
                    w.run.to.join(names[i]),
                )
            &&& v.job == w.job
        }),
{
    let entries = Seq::new(
        names.len(),
        |i: int|
            (
                w.run.from.join(names[names.len() - 1 - i]),
                w.run.to.join(names[names.len() - 1 - i]),
            ),
    );
    let all = w.run.pending + entries;
    assert(all.last() == entries[names.len() - 1]);
    let v = w.dir_listed(names);
    assert(v.run.pending =~= all.drop_last());
    assert(v.run.pending.take(w.run.pending.len() as int) =~= w.run.pending);
    assert forall|i: int| 1 <= i < names.len() implies v.run.pending[v.run.pending.len() - i] == (
        w.run.from.join(#[trigger] names[i]),
        w.run.to.join(names[i]),
    ) by {
        assert(v.run.pending[v.run.pending.len() - i] == entries[names.len() - 1 - i]);
    }
}

/// What waits comes up one by one, the last that was put there first; a directory without entries
/// that wait is done.
pub proof fn what_waits_comes_up(w: Work, from: PathView, to: PathView)
    requires
        !w.job.cancelled,
    ensures
        (Work { run: RunView { pending: w.run.pending.push((from, to)), ..w.run }, ..w }).next_entry()
            == (Work {
            run: RunView { from, to, phase: CopyPhase::InspectEntry, ..w.run },
            ..w
        }),
        w.run.pending.len() == 0 && w.run.is_dir && w.job.is_move && !w.run.left_out
            ==> w.next_entry().run.phase == CopyPhase::Recycle,
        w.run.pending.len() == 0 && w.run.is_dir && w.job.is_move && w.run.left_out
            ==> w.next_entry() == w.next_source(),
{
    assert(w.run.pending.push((from, to)).drop_last() =~= w.run.pending);
}

/// A file that was copied counts as done. In a copy a source that is a file is then in its place,
/// and in a move its original is to go; inside a directory the next entry follows.
pub proof fn a_copied_file_is_done(w: Work)
    requires
        w.job.files_done < usize::MAX,
        w.run.at < w.run.sources.len(),
    ensures
        ({
            let v = w.step(CopyReply::Copied);
            &&& v.job.files_done == w.job.files_done + 1
            &&& !w.run.is_dir && w.job.is_move ==> v.run == (RunView {
                phase: CopyPhase::Recycle,
                ..w.run
            }) && v.job.placed_sources == w.job.placed_sources
            &&& !w.run.is_dir && !w.job.is_move ==> v.job.placed_sources
                == w.job.placed_sources.push(w.source()) && v.job.pasted_names
                == w.job.pasted_names.push(shown_name(w.run.target))
            &&& w.run.is_dir && w.run.pending.len() > 0 && !w.job.cancelled ==> v.run.phase
                == CopyPhase::InspectEntry && v.run.left_out == w.run.left_out
        }),
{
}

/// A source that was renamed, or whose original is gone, is in its place: it is noted with the
/// name that it has there, and the next source follows.
pub proof fn what_is_in_its_place_is_noted(w: Work, files: usize, bytes: u64)
    requires
        w.job.files_done + files <= usize::MAX,
        w.job.bytes_copied + bytes <= u64::MAX,
        w.run.at < w.run.sources.len(),
    ensures
        ({
            let v = w.step(CopyReply::Renamed(Some((files, bytes))));
            &&& v.job.files_done == w.job.files_done + files
            &&& v.job.bytes_copied == w.job.bytes_copied + bytes
            &&& v.job.placed_sources == w.job.placed_sources.push(w.source())
            &&& v.job.pasted_names == w.job.pasted_names.push(shown_name(w.run.target))
        }),
        ({
            let v = w.step(CopyReply::Recycled);
            &&& v.job.files_done == w.job.files_done
            &&& v.job.placed_sources == w.job.placed_sources.push(w.source())
            &&& v.job.pasted_names == w.job.pasted_names.push(shown_name(w.run.target))
            &&& !w.job.cancelled && w.run.at + 1 < w.run.sources.len() ==> v.run.at == w.run.at + 1
                && v.run.phase == CopyPhase::InspectSource && v.job.done == w.job.done
            &&& w.job.cancelled || w.run.at + 1 >= w.run.sources.len() ==> v.run.phase
                == CopyPhase::Finished && v.job.done
        }),
{
}

/// A move that cannot be made by renaming is made by copying; so is one to where something is
/// already. Only a target where nothing is gets the source by renaming.
pub proof fn a_move_falls_back_to_copying(w: Work)
    ensures
        w.step(CopyReply::Renamed(None)) == w.step(CopyReply::TargetTaken(true)),
        w.step(CopyReply::Renamed(None)).run.from == w.source(),
        w.step(CopyReply::Renamed(None)).run.to == w.run.target,
        w.step(CopyReply::Renamed(None)).run.phase == if w.run.is_dir {
            CopyPhase::OpenDir
        } else {
            CopyPhase::Compare
        },
        w.step(CopyReply::TargetTaken(false)) == (Work {
            run: RunView { phase: CopyPhase::Rename, ..w.run },
            ..w
        }),
        w.step(CopyReply::EntryIsDir(true)).run.phase == CopyPhase::OpenDir,
        w.step(CopyReply::EntryIsDir(false)).run.phase == CopyPhase::Compare,
{
}

/// What goes wrong ends the job; the message names the source, and the first message stays. A job
/// that the user ended has no message.
pub proof fn what_goes_wrong_is_told(w: Work, message: Seq<char>)
    ensures
        w.step(CopyReply::Refused(false, message)).run.phase == CopyPhase::Finished,
        w.step(CopyReply::Refused(false, message)).job.done,
        w.job.error is None ==> w.step(CopyReply::Refused(false, message)).job.error == Some(
            shown_name(w.source()) + ": "@ + message,
        ),
        w.job.error is Some ==> w.step(CopyReply::Refused(false, message)).job.error
            == w.job.error,
        w.step(CopyReply::Refused(true, message)).job == (JobView { done: true, ..w.job }),
        w.step(CopyReply::Refused(true, message)).run.phase == CopyPhase::Finished,
        w.step(CopyReply::NotRecycled(message)) == w.step(CopyReply::Refused(false, message)),
        w.step(CopyReply::NotRecycled(message)).job.placed_sources == w.job.placed_sources,
{
}

/// A file that is passed over counts as done, and a copy that finds it there places nothing.
pub proof fn what_is_passed_over_counts_as_done(w: Work, x: FileFacts, y: FileFacts)
    requires
        alike(x, y),
        w.job.files_done < usize::MAX,
        !w.run.is_dir,
        !w.job.is_move,
    ensures
        w.compared(true, Some(x), Some(y)).job.files_done == w.job.files_done + 1,
        w.compared(true, Some(x), Some(y)).job.placed_sources == w.job.placed_sources,
        w.compared(true, Some(x), Some(y)).job.pasted_names == w.job.pasted_names,
        w.answered(ConflictChoice::Skip).job.files_done == w.job.files_done + 1,
        w.unanswered().job.files_done == w.job.files_done + 1,
        w.unanswered().job.conflict_query is None,
{
}

/// A job shows the name of the file that it works on.
pub proof fn a_job_shows_its_file(w: Work, dir: PathView, name: Seq<char>)
    requires
        name != seq!['.'],
        name != seq!['.', '.'],
        w.run.from == dir.join(name),
    ensures
        shown_name(dir.join(name)) == name,
        dir.names.len() == 0 ==> shown_name(dir).len() == 0,
        w.step(CopyReply::EntryIsDir(false)).job.current_file == name,
        w.run.at < w.run.sources.len() && w.source() == w.run.from && !w.run.is_dir ==> w.step(
            CopyReply::TargetTaken(true),
        ).job.current_file == name,
{
    crate::paths::an_entry_has_the_names_of_its_folder(dir, name);
}

/// A new job has done nothing, asks nothing and holds to no choice.
pub proof fn a_new_job_has_done_nothing(is_move: bool, shown: Seq<char>)
    ensures
        ({
            let j = fresh_job(is_move, shown);
            &&& j.is_move == is_move
            &&& j.dest_display == shown
            &&& j.files_done == 0 && j.bytes_copied == 0
            &&& !j.done && !j.cancelled && !j.paused
            &&& !j.overwrite_all && !j.skip_all
            &&& j.error is None && j.conflict_query is None && j.conflict_answer is None
            &&& j.pasted_names.len() == 0 && j.placed_sources.len() == 0
            &&& j.skipped_identical.len() == 0
        }),
{
}

/// What a job says of a source names its whole path.
pub proof fn messages_name_the_source(source: PathView)
    ensures
        crate::text::ends_with(refusal(source), "("@ + source.written() + ")"@),
        crate::text::ends_with(recycle_failure(source), source.written()),
{
    reveal_strlit("Refusing unsafe operation: destination is inside source (");
    reveal_strlit("(");
    reveal_strlit(")");
    let head = "Refusing unsafe operation: destination is inside source ("@;
    let start = head.drop_last();
    let tail = "("@ + source.written() + ")"@;
    assert(head =~= start + "("@);
    assert(refusal(source) =~= start + tail);
    crate::text::a_part_is_found(start, tail, Seq::empty());
    crate::text::a_part_is_found(
        "Move safety stop: couldn't send original to Recycle Bin: "@,
        source.written(),
        Seq::empty(),
    );
}

} // verus!
