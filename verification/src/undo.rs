//! Deleting files in the background, and undoing what was done to files.
use crate::copy_job::{CopyJobState, CopyPhase, JobView, Work};
use crate::numerals::{decimal, to_decimal};
use crate::paths::{copy_paths, path_views, FsPath, PathView};
use crate::text::{copy_text, joined};
use vstd::prelude::*;

verus! {

/// What was done to files, as far as it can be undone.
pub enum UndoAction {
    Rename { old_path: FsPath, new_path: FsPath },
    Move { sources: Vec<FsPath>, dest: FsPath },
    Delete { paths: Vec<FsPath> },
}

/// A message to the user, and for how many milliseconds it is shown; without an end where there
/// is none.
pub struct Feedback {
    pub message: String,
    pub is_error: bool,
    pub shown_ms: Option<u64>,
}

/// A message that stays.
fn lasting(message: String, is_error: bool) -> (r: Feedback)
    ensures
        r.message@ == message@,
        r.is_error == is_error,
        r.shown_ms is None,
{
    Feedback { message, is_error, shown_ms: None }
}

// ---------------------------------------------------------------------------
// Deleting
// ---------------------------------------------------------------------------

/// How far the deletion of files has come.
#[derive(Clone, Copy, PartialEq, Eq, Structural)]
pub enum DeleteStage {
    Attempt,
    InProgress,
    /// The files could not be deleted as they are.
    Unlocking,
}

/// What is said of a stage.
pub fn delete_status(stage: DeleteStage) -> (r: &'static str)
    ensures
        r@ == match stage {
            DeleteStage::Attempt => "Deletion attempt..."@,
            DeleteStage::InProgress => "Deletion in progress..."@,
            DeleteStage::Unlocking => "Folder is locked. Attempting unlock + delete..."@,
        },
{
    match stage {
        DeleteStage::Attempt => "Deletion attempt...",
        DeleteStage::InProgress => "Deletion in progress...",
        DeleteStage::Unlocking => "Folder is locked. Attempting unlock + delete...",
    }
}

/// Begins the deletion of `paths`, unless there are none or another one runs.
pub fn start_delete_job(paths: &Vec<FsPath>, running: bool) -> (r: Option<Feedback>)
    ensures
        match r {
            Some(f) => {
                &&& paths@.len() > 0 && !running
                &&& f.message@ == "Deletion attempt..."@
                &&& !f.is_error
                &&& f.shown_ms is None
            },
            None => paths@.len() == 0 || running,
        },
{
    if paths.len() == 0 || running {
        return None;
    }
    Some(lasting(copy_text(delete_status(DeleteStage::Attempt)), false))
}

/// What follows the attempt to put the files into the recycle bin: where it failed, they are
/// freed first.
pub fn after_attempt(deleted: bool) -> (r: Option<DeleteStage>)
    ensures
        r == if deleted {
            None::<DeleteStage>
        } else {
            Some(DeleteStage::Unlocking)
        },
{
    if deleted {
        None
    } else {
        Some(DeleteStage::Unlocking)
    }
}

// ---------------------------------------------------------------------------
// Undoing a move
// ---------------------------------------------------------------------------

/// Whether a finished job can be undone: a move that has placed something, and is not itself the
/// way back of another.
pub open spec fn can_be_undone(job: JobView) -> bool {
    job.is_move && !job.no_undo && job.placed_sources.len() > 0 && job.dest is Some
}

/// What is kept of a finished job to undo it: what was placed, and where. What was left out is no
/// part of it.
pub fn undo_of(job: &CopyJobState) -> (r: Option<UndoAction>)
    ensures
        match r {
            Some(UndoAction::Move { sources, dest }) => {
                &&& can_be_undone(job@)
                &&& path_views(sources@) == job@.placed_sources
                &&& job@.dest == Some(dest@)
            },
            Some(_) => false,
            None => !can_be_undone(job@),
        },
{
    assert(job@.placed_sources.len() == job.placed_sources@.len());
    if !job.is_move || job.no_undo || job.placed_sources.len() == 0 {
        return None;
    }
    match &job.dest {
        Some(dest) => Some(
            UndoAction::Move { sources: copy_paths(&job.placed_sources), dest: dest.copy() },
        ),
        None => None,
    }
}

/// A file that a move has put somewhere else, and the folder that it came from.
pub open spec fn moved_file(original: PathView, dest: PathView) -> Option<(PathView, PathView)> {
    match (original.file_name(), original.parent()) {
        (Some(n), Some(p)) => Some((p, dest.join(n))),
        _ => None,
    }
}

/// The files that a move has put into `dest`, each with the folder that it came from.
pub open spec fn moved_files(sources: Seq<PathView>, dest: PathView) -> Seq<(PathView, PathView)>
    decreases sources.len(),
{
    if sources.len() == 0 {
        Seq::empty()
    } else {
        let front = moved_files(sources.drop_last(), dest);
        match moved_file(sources.last(), dest) {
            Some(m) => front.push(m),
            None => front,
        }
    }
}

/// The views of a list of moved files.
pub open spec fn moved_views(v: Seq<(FsPath, FsPath)>) -> Seq<(PathView, PathView)> {
    Seq::new(v.len(), |i: int| (v[i].0@, v[i].1@))
}

/// The files that a move has put into `dest`, each with the folder that it came from. The caller
/// says of each whether it is still there.
pub fn find_moved(sources: &Vec<FsPath>, dest: &FsPath) -> (r: Vec<(FsPath, FsPath)>)
    ensures
        moved_views(r@) == moved_files(path_views(sources@), dest@),
{
    let ghost all = path_views(sources@);
    let mut r: Vec<(FsPath, FsPath)> = Vec::new();
    assert(moved_views(r@) =~= moved_files(all.take(0), dest@));
    for i in 0..sources.len()
        invariant
            all == path_views(sources@),
            moved_views(r@) == moved_files(all.take(i as int), dest@),
    {
        let ghost before = moved_views(r@);
        assert(all.take(i + 1).drop_last() =~= all.take(i as int));
        assert(all.take(i + 1).last() == sources@[i as int]@);
        match (sources[i].file_name(), sources[i].parent()) {
            (Some(n), Some(p)) => {
                r.push((p, dest.join(n.as_str())));
                assert(moved_views(r@) =~= before.push((p@, dest@.join(n@))));
            },
            _ => {},
        }
    }
    assert(all.take(all.len() as int) =~= all);
    r
}

/// The items whose flag is set.
pub open spec fn flagged(items: Seq<(PathView, PathView)>, flags: Seq<bool>) -> Seq<
    (PathView, PathView),
>
    decreases items.len(),
{
    if items.len() == 0 {
        Seq::empty()
    } else {
        let front = flagged(items.drop_last(), flags);
        if flags[items.len() - 1] {
            front.push(items.last())
        } else {
            front
        }
    }
}

/// The position of the group of `folder`; the number of groups where it has none.
pub open spec fn group_of(groups: Seq<(PathView, Seq<PathView>)>, folder: PathView) -> int
    decreases groups.len(),
{
    if groups.len() == 0 {
        0
    } else if groups[0].0.is_same(folder) {
        0
    } else {
        1 + group_of(groups.skip(1), folder)
    }
}

/// The files of `items` by the folders that they came from, the folders in the order in which
/// they came up.
pub open spec fn grouped(items: Seq<(PathView, PathView)>) -> Seq<(PathView, Seq<PathView>)>
    decreases items.len(),
{
    if items.len() == 0 {
        Seq::empty()
    } else {
        let g = grouped(items.drop_last());
        let (folder, file) = items.last();
        let i = group_of(g, folder);
        if i < g.len() {
            g.update(i, (g[i].0, g[i].1.push(file)))
        } else {
            g.push((folder, seq![file]))
        }
    }
}

/// The views of a list of groups.
pub open spec fn group_views(v: Seq<(FsPath, Vec<FsPath>)>) -> Seq<(PathView, Seq<PathView>)> {
    Seq::new(v.len(), |i: int| (v[i].0@, path_views(v[i].1@)))
}

proof fn group_of_holds(g: Seq<(PathView, Seq<PathView>)>, folder: PathView)
    ensures
        0 <= group_of(g, folder) <= g.len(),
        group_of(g, folder) < g.len() ==> g[group_of(g, folder)].0.is_same(folder),
        forall|k: int| 0 <= k < group_of(g, folder) ==> !(#[trigger] g[k]).0.is_same(folder),
    decreases g.len(),
{
    if g.len() > 0 && !g[0].0.is_same(folder) {
        group_of_holds(g.skip(1), folder);
        assert forall|k: int| 0 <= k < group_of(g, folder) implies !(
        #[trigger] g[k]).0.is_same(folder) by {
            if k > 0 {
                assert(g.skip(1)[k - 1] == g[k]);
            }
        }
    }
}

/// The position of the group of `folder`.
fn find_group(groups: &Vec<(FsPath, Vec<FsPath>)>, folder: &FsPath) -> (r: usize)
    ensures
        r == group_of(group_views(groups@), folder@),
        r <= groups@.len(),
{
    let ghost g = group_views(groups@);
    let mut i: usize = 0;
    assert(g.skip(0) =~= g);
    while i < groups.len()
        invariant
            i <= groups@.len(),
            g == group_views(groups@),
            group_of(g, folder@) == i + group_of(g.skip(i as int), folder@),
        decreases groups@.len() - i,
    {
        assert(g.skip(i as int)[0] == g[i as int]);
        if groups[i].0.same(folder) {
            return i;
        }
        assert(g.skip(i as int).skip(1) =~= g.skip(i + 1));
        i = i + 1;
    }
    i
}

/// The jobs that undo a move: of the files `moved`, those that are `present` go back, all files
/// of one folder together.
pub fn plan_way_back(moved: &Vec<(FsPath, FsPath)>, present: &Vec<bool>) -> (r: Vec<
    (FsPath, Vec<FsPath>),
>)
    requires
        moved@.len() == present@.len(),
    ensures
        group_views(r@) == grouped(flagged(moved_views(moved@), present@)),
{
    let ghost all = moved_views(moved@);
    let mut r: Vec<(FsPath, Vec<FsPath>)> = Vec::new();
    assert(group_views(r@) =~= grouped(flagged(all.take(0), present@)));
    for i in 0..moved.len()
        invariant
            moved@.len() == present@.len(),
            all == moved_views(moved@),
            group_views(r@) == grouped(flagged(all.take(i as int), present@)),
    {
        assert(all.take(i + 1).drop_last() =~= all.take(i as int));
        let ghost front = flagged(all.take(i as int), present@);
        if present[i] {
            let ghost item = all[i as int];
            assert(flagged(all.take(i + 1), present@) == front.push(item));
            assert(front.push(item).drop_last() =~= front);
            let ghost before = group_views(r@);
            let k: usize = find_group(&r, &moved[i].0);
            if k < r.len() {
                proof {
                    group_of_holds(before, item.0);
                }
                let (folder, mut files) = r.remove(k);
                let ghost files0 = path_views(files@);
                files.push(moved[i].1.copy());
                assert(path_views(files@) =~= files0.push(item.1));
                r.insert(k, (folder, files));
                assert(group_views(r@) =~= before.update(
                    k as int,
                    (before[k as int].0, before[k as int].1.push(item.1)),
                ));
            } else {
                let mut files: Vec<FsPath> = Vec::new();
                files.push(moved[i].1.copy());
                assert(path_views(files@) =~= seq![item.1]);
                r.push((moved[i].0.copy(), files));
                assert(group_views(r@) =~= before.push((item.0, seq![item.1])));
            }
        } else {
            assert(flagged(all.take(i + 1), present@) == front);
        }
    }
    assert(all.take(all.len() as int) =~= all);
    r
}

/// Whether the group of `folder` holds `file`.
pub open spec fn goes_back(
    groups: Seq<(PathView, Seq<PathView>)>,
    folder: PathView,
    file: PathView,
) -> bool {
    exists|i: int|
        0 <= i < groups.len() && (#[trigger] groups[i]).0.is_same(folder) && groups[i].1.contains(
            file,
        )
}

/// Whether `file` is one of the items, and came from `folder`.
pub open spec fn came_from(
    items: Seq<(PathView, PathView)>,
    folder: PathView,
    file: PathView,
) -> bool {
    exists|i: int|
        0 <= i < items.len() && (#[trigger] items[i]).0.is_same(folder) && items[i].1 == file
}

/// Undoing a move sends every file that is still there back to the folder that it came from,
/// and nothing anywhere else.
pub proof fn files_go_back_where_they_came_from(
    items: Seq<(PathView, PathView)>,
    folder: PathView,
    file: PathView,
)
    ensures
        goes_back(grouped(items), folder, file) <==> came_from(items, folder, file),
    decreases items.len(),
{
    if items.len() > 0 {
        let front = items.drop_last();
        files_go_back_where_they_came_from(front, folder, file);
        let g = grouped(front);
        let (f, x) = items.last();
        let k = group_of(g, f);
        group_of_holds(g, f);
        let h = grouped(items);
        let is_last = f.is_same(folder) && x == file;
        if came_from(front, folder, file) {
            let n = choose|n: int|
                0 <= n < front.len() && (#[trigger] front[n]).0.is_same(folder) && front[n].1
                    == file;
            assert(items[n] == front[n]);
            let i = choose|i: int|
                0 <= i < g.len() && (#[trigger] g[i]).0.is_same(folder) && g[i].1.contains(file);
            assert(h[i].0.is_same(folder));
            if i == k {
                assert(h[i].1[g[i].1.index_of(file)] == file);
            } else {
                assert(h[i] == g[i]);
            }
        }
        if is_last {
            assert(items[items.len() - 1] == (f, x));
            if k < g.len() {
                assert(h[k].0.is_same(folder));
                assert(h[k].1[g[k].1.len() as int] == file);
            } else {
                assert(h[g.len() as int].0.is_same(folder));
                assert(h[g.len() as int].1[0] == file);
            }
        }
        if goes_back(h, folder, file) && !is_last {
            let i = choose|i: int|
                0 <= i < h.len() && (#[trigger] h[i]).0.is_same(folder) && h[i].1.contains(file);
            let j = h[i].1.index_of(file);
            if i < g.len() {
                assert(g[i].0.is_same(folder));
                if i == k {
                    assert(j < g[i].1.len());
                    assert(g[i].1[j] == file);
                } else {
                    assert(h[i] == g[i]);
                }
                assert(goes_back(g, folder, file));
            } else {
                assert(h[i].1 =~= seq![x]);
                assert(h[i].1[j] == x);
            }
        }
        if came_from(items, folder, file) && !is_last {
            let n = choose|n: int|
                0 <= n < items.len() && (#[trigger] items[n]).0.is_same(folder) && items[n].1
                    == file;
            assert(n < front.len());
            assert(front[n] == items[n]);
        }
    }
}

/// Undoing a move starts one job for each folder.
pub proof fn one_job_for_each_folder(items: Seq<(PathView, PathView)>)
    ensures
        forall|i: int, j: int|
            0 <= i < j < grouped(items).len() ==> !(#[trigger] grouped(items)[i]).0.is_same(
                (#[trigger] grouped(items)[j]).0,
            ),
    decreases items.len(),
{
    if items.len() > 0 {
        one_job_for_each_folder(items.drop_last());
        let g = grouped(items.drop_last());
        group_of_holds(g, items.last().0);
        let h = grouped(items);
        assert forall|i: int, j: int| 0 <= i < j < h.len() implies !(#[trigger] h[i]).0.is_same(
            (#[trigger] h[j]).0,
        ) by {
            if j < g.len() {
                assert(!g[i].0.is_same(g[j].0));
            }
        }
    }
}

// ---------------------------------------------------------------------------
// What the user is told
// ---------------------------------------------------------------------------

/// What is said where a new name could not be undone.
pub fn undo_rename_failed(error: &str) -> (r: Feedback)
    ensures
        r.message@ == "Undo rename failed: "@ + error@,
        r.is_error,
        r.shown_ms is None,
{
    lasting(joined("Undo rename failed: ", error), true)
}

/// What is said where no moved file is left to go back.
pub fn nothing_to_move_back() -> (r: Feedback)
    ensures
        r.message@ == "Undo failed: files no longer found at destination."@,
        r.is_error,
        r.shown_ms is None,
{
    lasting(copy_text("Undo failed: files no longer found at destination."), true)
}

/// What is said where the folder that files go back to could not be made.
pub fn way_back_blocked(folder: &str, error: &str) -> (r: Feedback)
    ensures
        r.message@ == "Undo move failed creating destination '"@ + folder@ + "': "@ + error@,
        r.is_error,
        r.shown_ms is None,
{
    let s = joined(joined("Undo move failed creating destination '", folder).as_str(), "': ");
    lasting(joined(s.as_str(), error), true)
}

/// For how many milliseconds good news is shown.
pub const GOOD_NEWS_MS: u64 = 2000;

/// What is said after deleted files were brought back: how many, and the first one that was not.
pub fn undo_delete_result(restored: usize, total: usize, first_failure: Option<&str>) -> (r:
    Feedback)
    ensures
        r.is_error == (restored < total),
        r.message@ == if restored < total {
            "Undo delete incomplete: restored "@ + decimal(restored as nat) + "/"@ + decimal(
                total as nat,
            ) + " item(s). First failure: "@ + match first_failure {
                Some(p) => p@,
                None => "unknown item"@,
            }
        } else {
            "Undo delete restored "@ + decimal(restored as nat) + " item(s)."@
        },
        r.shown_ms == if restored < total {
            None::<u64>
        } else {
            Some(GOOD_NEWS_MS)
        },
{
    let n = to_decimal(restored as u64);
    if restored < total {
        let first = match first_failure {
            Some(p) => p,
            None => "unknown item",
        };
        let mut s = joined("Undo delete incomplete: restored ", n.as_str());
        s = joined(s.as_str(), "/");
        s = joined(s.as_str(), to_decimal(total as u64).as_str());
        s = joined(s.as_str(), " item(s). First failure: ");
        lasting(joined(s.as_str(), first), true)
    } else {
        let s = joined(joined("Undo delete restored ", n.as_str()).as_str(), " item(s).");
        Feedback { message: s, is_error: false, shown_ms: Some(GOOD_NEWS_MS) }
    }
}

/// What is said where there is no recycle bin to bring files back from.
pub fn undo_delete_unsupported() -> (r: Feedback)
    ensures
        r.message@ == "Undo delete is only supported on Windows."@,
        r.is_error,
        r.shown_ms is None,
{
    lasting(copy_text("Undo delete is only supported on Windows."), true)
}

// ---------------------------------------------------------------------------
// The way back
// ---------------------------------------------------------------------------

/// Undo looks for what the move wrote: the last source, where it names something, is looked for
/// under its whole name in the destination, and goes back to the folder that it lay in, where it
/// is again what it was; a source without a name is passed over.
pub proof fn undo_looks_for_what_was_moved(before: Seq<PathView>, s: PathView, dest: PathView)
    ensures
        moved_files(Seq::empty(), dest).len() == 0,
        s.names.len() == 0 || s.names.last() == seq!['.'] || s.names.last() == seq!['.', '.']
            ==> moved_files(before.push(s), dest) == moved_files(before, dest),
        s.names.len() > 0 && s.names.last() != seq!['.'] && s.names.last() != seq!['.', '.'] ==> {
            let m = moved_files(before.push(s), dest);
            &&& m.len() == moved_files(before, dest).len() + 1
            &&& m.drop_last() == moved_files(before, dest)
            &&& m.last().0.prefix == s.prefix
            &&& m.last().0.rooted == s.rooted
            &&& m.last().0.names == s.names.drop_last()
            &&& m.last().1.prefix == dest.prefix
            &&& m.last().1.rooted == dest.rooted
            &&& m.last().1.names == dest.names.push(s.names.last())
            &&& m.last().0.join(m.last().1.names.last()).is_same(s)
        },
{
    let all = before.push(s);
    assert(all.drop_last() =~= before);
    assert(all.last() == s);
    if s.names.len() > 0 {
        assert(s.names.take(s.names.len() - 1) =~= s.names.drop_last());
        assert(s.names.drop_last().push(s.names.last()) =~= s.names);
    }
    if moved_file(s, dest) is Some {
        let m = moved_files(all, dest);
        assert(m.drop_last() =~= moved_files(before, dest));
    }
}

/// What undo looks for is where a move puts a source.
pub proof fn a_move_goes_where_undo_looks(w: Work, is_dir: bool)
    requires
        w.job.is_move,
        w.source_inspected(is_dir).run.phase == CopyPhase::ProbeTarget,
    ensures
        moved_files(seq![w.source()], w.run.dest).len() == 1,
        moved_files(seq![w.source()], w.run.dest)[0].1 == w.source_inspected(is_dir).run.target,
{
    undo_looks_for_what_was_moved(Seq::empty(), w.source(), w.run.dest);
    assert(Seq::<PathView>::empty().push(w.source()) =~= seq![w.source()]);
    assert(moved_file(w.source(), w.run.dest) is Some);
}

/// Those files go back that are still there, in their order, and no others.
pub proof fn what_is_gone_stays_gone(
    items: Seq<(PathView, PathView)>,
    item: (PathView, PathView),
    flags: Seq<bool>,
)
    requires
        flags.len() == items.len() + 1,
    ensures
        flagged(items.push(item), flags) == if flags.last() {
            flagged(items, flags.drop_last()).push(item)
        } else {
            flagged(items, flags.drop_last())
        },
{
    let all = items.push(item);
    assert(all.drop_last() =~= items);
    flags_are_read_in_place(items, flags, flags.drop_last());
}

proof fn flags_are_read_in_place(items: Seq<(PathView, PathView)>, a: Seq<bool>, b: Seq<bool>)
    requires
        items.len() <= a.len(),
        items.len() <= b.len(),
        forall|i: int| 0 <= i < items.len() ==> a[i] == b[i],
    ensures
        flagged(items, a) == flagged(items, b),
    decreases items.len(),
{
    if items.len() > 0 {
        flags_are_read_in_place(items.drop_last(), a, b);
    }
}

/// A file goes back to a folder where it came from there and is still there, and in no other
/// case.
pub proof fn a_file_goes_back_once_it_is_there(
    items: Seq<(PathView, PathView)>,
    flags: Seq<bool>,
    folder: PathView,
    file: PathView,
)
    requires
        flags.len() == items.len(),
    ensures
        goes_back(grouped(flagged(items, flags)), folder, file) <==> exists|i: int|
            0 <= i < items.len() && flags[i] && (#[trigger] items[i]).0.is_same(folder)
                && items[i].1 == file,
{
    files_go_back_where_they_came_from(flagged(items, flags), folder, file);
    flagged_holds(items, flags, folder, file);
}

proof fn flagged_holds(
    items: Seq<(PathView, PathView)>,
    flags: Seq<bool>,
    folder: PathView,
    file: PathView,
)
    requires
        flags.len() >= items.len(),
    ensures
        came_from(flagged(items, flags), folder, file) <==> exists|i: int|
            0 <= i < items.len() && flags[i] && (#[trigger] items[i]).0.is_same(folder)
                && items[i].1 == file,
    decreases items.len(),
{
    if items.len() > 0 {
        let front = items.drop_last();
        flagged_holds(front, flags, folder, file);
        let f = flagged(front, flags);
        let all = flagged(items, flags);
        let n = items.len() - 1;
        if came_from(all, folder, file) {
            let k = choose|k: int|
                0 <= k < all.len() && (#[trigger] all[k]).0.is_same(folder) && all[k].1 == file;
            if k < f.len() {
                assert(f[k] == all[k]);
                let i = choose|i: int|
                    0 <= i < front.len() && flags[i] && (#[trigger] front[i]).0.is_same(folder)
                        && front[i].1 == file;
                assert(items[i] == front[i]);
            } else {
                assert(items[n] == all[k]);
            }
        }
        if exists|i: int|
            0 <= i < items.len() && flags[i] && (#[trigger] items[i]).0.is_same(folder)
                && items[i].1 == file {
            let i = choose|i: int|
                0 <= i < items.len() && flags[i] && (#[trigger] items[i]).0.is_same(folder)
                    && items[i].1 == file;
            if i < n {
                assert(front[i] == items[i]);
                let k = choose|k: int|
                    0 <= k < f.len() && (#[trigger] f[k]).0.is_same(folder) && f[k].1 == file;
                assert(all[k] == f[k]);
            } else {
                assert(all[f.len() as int] == items[n]);
            }
        }
    }
}

/// A move that has placed something can be undone, unless it is itself the way back of another; a
/// copy cannot.
pub proof fn moves_can_be_undone(job: JobView)
    requires
        job.dest is Some,
    ensures
        !job.is_move ==> !can_be_undone(job),
        job.no_undo ==> !can_be_undone(job),
        job.placed_sources.len() == 0 ==> !can_be_undone(job),
        job.is_move && !job.no_undo && job.placed_sources.len() > 0 ==> can_be_undone(job),
{
}

} // verus!
