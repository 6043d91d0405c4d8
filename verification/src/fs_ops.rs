//! File-system work around the copy jobs: tallies, progress of long scans,
//! deletion to the recycle bin and the processes that stand in its way.
use crate::copy_job::CopyJobState;
use crate::copy_job::JobView;
use crate::paths::{path_views, FsPath, PathView};
use crate::wide::{before_zero, decode_lossy, text_before_zero};
use vstd::prelude::*;

verus! {

// ---------------------------------------------------------------------------
// Tallies
// ---------------------------------------------------------------------------

/// What stands at a path: a file with its size, where that can be had, or a
/// folder with what it holds.
pub enum TreeItem {
    File(Option<u64>),
    Folder(Vec<TreeItem>),
}

/// The number of files in an item whose size is known.
pub open spec fn item_files(item: TreeItem) -> nat
    decreases item, 1nat,
{
    match item {
        TreeItem::File(Some(_)) => 1,
        TreeItem::File(None) => 0,
        TreeItem::Folder(inner) => files_in(inner@),
    }
}

/// The number of files in a list of items.
pub open spec fn files_in(items: Seq<TreeItem>) -> nat
    decreases items, 0nat,
    via files_in_ends
{
    if items.len() == 0 {
        0
    } else {
        files_in(items.drop_last()) + item_files(items.last())
    }
}

#[via_fn]
proof fn files_in_ends(items: Seq<TreeItem>) {
    if items.len() > 0 {
        assert(decreases_to!(items => items[items.len() - 1]));
        assert(items.drop_last() =~= items.subrange(0, items.len() - 1));
        assert(decreases_to!(items => items.subrange(0, items.len() - 1)));
    }
}

/// The bytes of the files in an item.
pub open spec fn item_bytes(item: TreeItem) -> nat
    decreases item, 1nat,
{
    match item {
        TreeItem::File(Some(n)) => n as nat,
        TreeItem::File(None) => 0,
        TreeItem::Folder(inner) => bytes_in(inner@),
    }
}

/// The bytes of the files in a list of items.
pub open spec fn bytes_in(items: Seq<TreeItem>) -> nat
    decreases items, 0nat,
    via bytes_in_ends
{
    if items.len() == 0 {
        0
    } else {
        bytes_in(items.drop_last()) + item_bytes(items.last())
    }
}

#[via_fn]
proof fn bytes_in_ends(items: Seq<TreeItem>) {
    if items.len() > 0 {
        assert(decreases_to!(items => items[items.len() - 1]));
        assert(items.drop_last() =~= items.subrange(0, items.len() - 1));
        assert(decreases_to!(items => items.subrange(0, items.len() - 1)));
    }
}

/// A shorter list holds no more.
proof fn tally_grows(items: Seq<TreeItem>, n: int)
    requires
        0 <= n <= items.len(),
    ensures
        files_in(items.take(n)) <= files_in(items),
        bytes_in(items.take(n)) <= bytes_in(items),
    decreases items.len() - n,
{
    if n < items.len() {
        assert(items.take(n + 1).drop_last() =~= items.take(n));
        tally_grows(items, n + 1);
    } else {
        assert(items.take(n) =~= items);
    }
}

/// Adds the files and bytes of a folder to the counts.
pub fn tally_dir(items: &Vec<TreeItem>, count: &mut usize, bytes: &mut u64)
    requires
        *old(count) + files_in(items@) <= usize::MAX,
        *old(bytes) + bytes_in(items@) <= u64::MAX,
    ensures
        *final(count) == *old(count) + files_in(items@),
        *final(bytes) == *old(bytes) + bytes_in(items@),
    decreases items,
{
    let ghost count0: nat = *count as nat;
    let ghost bytes0: nat = *bytes as nat;
    for i in 0..items.len()
        invariant
            count0 + files_in(items@) <= usize::MAX,
            bytes0 + bytes_in(items@) <= u64::MAX,
            *count == count0 + files_in(items@.take(i as int)),
            *bytes == bytes0 + bytes_in(items@.take(i as int)),
    {
        proof {
            tally_grows(items@, i + 1);
            assert(items@.take(i + 1).drop_last() =~= items@.take(i as int));
            assert(items@.take(i + 1).last() == items@[i as int]);
            assert(files_in(items@.take(i + 1)) == files_in(items@.take(i as int)) + item_files(
                items@[i as int],
            ));
            assert(bytes_in(items@.take(i + 1)) == bytes_in(items@.take(i as int)) + item_bytes(
                items@[i as int],
            ));
        }
        match &items[i] {
            TreeItem::File(Some(n)) => {
                assert(item_files(items@[i as int]) == 1);
                assert(item_bytes(items@[i as int]) == *n);
                *count = *count + 1;
                *bytes = *bytes + *n;
            },
            TreeItem::File(None) => {},
            TreeItem::Folder(inner) => {
                assert(decreases_to!(items => items@[i as int]));
                tally_dir(inner, count, bytes);
            },
        }
    }
    assert(items@.take(items@.len() as int) =~= items@);
}

/// The number of files in the sources and their bytes.
pub fn tally_sources(sources: &Vec<TreeItem>) -> (r: (usize, u64))
    requires
        files_in(sources@) <= usize::MAX,
        bytes_in(sources@) <= u64::MAX,
    ensures
        r.0 == files_in(sources@),
        r.1 == bytes_in(sources@),
{
    let mut count: usize = 0;
    let mut bytes: u64 = 0;
    tally_dir(sources, &mut count, &mut bytes);
    (count, bytes)
}

// ---------------------------------------------------------------------------
// Copying in chunks
// ---------------------------------------------------------------------------

/// What the copying of a file does before its next chunk.
#[derive(Clone, Copy, PartialEq, Eq, Structural)]
pub enum ChunkStep {
    /// Remove what was written and give up.
    GiveUp,
    /// Wait a moment and ask again.
    Wait,
    /// Copy the next chunk.
    Go,
}

/// A cancelled job gives up, paused or not; a paused one waits.
pub fn before_chunk(cancelled: bool, paused: bool) -> (r: ChunkStep)
    ensures
        r == if cancelled {
            ChunkStep::GiveUp
        } else if paused {
            ChunkStep::Wait
        } else {
            ChunkStep::Go
        },
{
    if cancelled {
        ChunkStep::GiveUp
    } else if paused {
        ChunkStep::Wait
    } else {
        ChunkStep::Go
    }
}

/// Counts a chunk that was copied.
pub fn chunk_copied(job: &mut CopyJobState, len: u64)
    ensures
        final(job)@ == (JobView {
            bytes_copied: old(job)@.bytes_copied.wrapping_add(len),
            ..old(job)@
        }),
{
    job.bytes_copied = job.bytes_copied.wrapping_add(len);
}

// ---------------------------------------------------------------------------
// Directory sizes
// ---------------------------------------------------------------------------

/// Adds a file to the size of a directory. The new size is reported whenever
/// it passes a multiple of 64 KiB.
pub fn add_to_dir_size(accumulated: &mut u64, len: u64) -> (r: Option<u64>)
    requires
        *old(accumulated) + len <= u64::MAX,
    ensures
        *final(accumulated) == *old(accumulated) + len,
        r == if *final(accumulated) / 65536 != *old(accumulated) / 65536 {
            Some(*final(accumulated))
        } else {
            None
        },
{
    let prev: u64 = *accumulated;
    let next: u64 = prev + len;
    *accumulated = next;
    if next / 65536 != prev / 65536 {
        Some(next)
    } else {
        None
    }
}

/// What is reported of a directory's size is never more than 64 KiB behind.
pub proof fn report_is_not_far_behind(reported: u64, now: u64)
    requires
        reported <= now,
        reported / 65536 == now / 65536,
    ensures
        now - reported < 65536,
{
}

// ---------------------------------------------------------------------------
// Deletion
// ---------------------------------------------------------------------------

/// Whether any of the flags is set.
pub fn any_set(flags: &Vec<bool>) -> (r: bool)
    ensures
        r == flags@.contains(true),
{
    for i in 0..flags.len()
        invariant
            forall|k: int| 0 <= k < i ==> flags@[k] == false,
    {
        if flags[i] {
            return true;
        }
    }
    false
}

/// Whether any of the flags is not set.
fn any_unset(flags: &Vec<bool>) -> (r: bool)
    ensures
        r == flags@.contains(false),
{
    for i in 0..flags.len()
        invariant
            forall|k: int| 0 <= k < i ==> flags@[k] == true,
    {
        if !flags[i] {
            return true;
        }
    }
    false
}

/// Whether the items were deleted, given which of them could be queued,
/// whether the shell performed the queue, and which of them exist still. All
/// of them have to be queued, and a queue with nothing in it is not
/// performed. The shell's word alone is not taken for it: every item has to
/// be gone.
pub fn delete_to_recycle_bin(queued: &Vec<bool>, performed: bool, still_there: &Vec<bool>) -> (r:
    bool)
    ensures
        r == (queued@.len() > 0 && !queued@.contains(false) && performed && !still_there@.contains(
            true,
        )),
{
    queued.len() > 0 && !any_unset(queued) && performed && !any_set(still_there)
}

/// How far a deletion with force has come.
pub enum UnlockStage {
    /// Nothing was tried.
    Begin,
    /// The first deletion was tried.
    FirstTried(bool),
    /// The processes that hold the remaining items, by number, and this one's
    /// own number.
    LockersFound(Vec<u32>, u32),
    /// Which items remain once those processes were ended.
    StillThere(Vec<bool>),
    /// The second deletion was tried.
    SecondTried(bool),
}

/// What a deletion with force does next.
pub enum UnlockAction {
    /// It is over.
    Done(bool),
    /// Delete these items.
    Delete(Vec<FsPath>),
    /// Find out which processes hold the items that remain.
    FindLockers,
    /// End these processes, then find out what remains.
    Terminate(Vec<u32>),
}

/// The numbers of `pids` but `own`, each once, in the order in which they
/// first come.
pub open spec fn to_terminate(pids: Seq<u32>, own: u32) -> Seq<u32>
    decreases pids.len(),
{
    if pids.len() == 0 {
        Seq::empty()
    } else {
        let before = to_terminate(pids.drop_last(), own);
        if pids.last() == own || before.contains(pids.last()) {
            before
        } else {
            before.push(pids.last())
        }
    }
}

/// The items whose flag is set.
pub open spec fn flagged(paths: Seq<PathView>, flags: Seq<bool>) -> Seq<PathView>
    decreases paths.len(),
{
    if paths.len() == 0 {
        Seq::empty()
    } else {
        let before = flagged(paths.drop_last(), flags);
        if flags[paths.len() - 1] {
            before.push(paths.last())
        } else {
            before
        }
    }
}

/// Each process but one's own is ended, once.
pub proof fn terminates_each_once(pids: Seq<u32>, own: u32)
    ensures
        to_terminate(pids, own).no_duplicates(),
        !to_terminate(pids, own).contains(own),
        forall|p: u32| #[trigger]
            to_terminate(pids, own).contains(p) <==> pids.contains(p) && p != own,
    decreases pids.len(),
{
    if pids.len() > 0 {
        let rest = pids.drop_last();
        terminates_each_once(rest, own);
        let before = to_terminate(rest, own);
        let all = to_terminate(pids, own);
        assert(pids.contains(pids.last()));
        assert forall|p: u32| pids.contains(p) implies rest.contains(p) || p == pids.last() by {
            let i = pids.index_of(p);
            if i < rest.len() {
                assert(rest[i] == p);
            }
        }
        assert forall|p: u32| rest.contains(p) implies pids.contains(p) by {
            assert(pids[rest.index_of(p)] == p);
        }
        assert forall|p: u32| before.contains(p) implies all.contains(p) by {
            assert(all[before.index_of(p)] == p);
        }
        if !(pids.last() == own || before.contains(pids.last())) {
            assert(all[before.len() as int] == pids.last());
            assert forall|p: u32| all.contains(p) implies before.contains(p) || p == pids.last() by {
                let i = all.index_of(p);
                if i < before.len() {
                    assert(before[i] == p);
                }
            }
        }
    }
}

/// Whether `pid` is one of `list`.
fn holds_pid(list: &Vec<u32>, pid: u32) -> (r: bool)
    ensures
        r == list@.contains(pid),
{
    for i in 0..list.len()
        invariant
            forall|k: int| 0 <= k < i ==> list@[k] != pid,
    {
        if list[i] == pid {
            return true;
        }
    }
    false
}

/// The view of an `UnlockAction`.
pub enum UnlockActionView {
    Done(bool),
    Delete(Seq<PathView>),
    FindLockers,
    Terminate(Seq<u32>),
}

impl View for UnlockAction {
    type V = UnlockActionView;

    open spec fn view(&self) -> UnlockActionView {
        match self {
            UnlockAction::Done(ok) => UnlockActionView::Done(*ok),
            UnlockAction::Delete(paths) => UnlockActionView::Delete(path_views(paths@)),
            UnlockAction::FindLockers => UnlockActionView::FindLockers,
            UnlockAction::Terminate(pids) => UnlockActionView::Terminate(pids@),
        }
    }
}

/// Deletion with force: delete; where that fails, end the processes that hold
/// what remains, and delete that.
pub open spec fn unlock_action(paths: Seq<PathView>, stage: UnlockStage) -> UnlockActionView {
    match stage {
        UnlockStage::Begin => if paths.len() == 0 {
            UnlockActionView::Done(true)
        } else {
            UnlockActionView::Delete(paths)
        },
        UnlockStage::FirstTried(ok) => if ok {
            UnlockActionView::Done(true)
        } else {
            UnlockActionView::FindLockers
        },
        UnlockStage::LockersFound(pids, own) => if pids@.len() == 0 {
            UnlockActionView::Done(false)
        } else {
            UnlockActionView::Terminate(to_terminate(pids@, own))
        },
        UnlockStage::StillThere(flags) => if flagged(paths, flags@).len() == 0 {
            UnlockActionView::Done(true)
        } else {
            UnlockActionView::Delete(flagged(paths, flags@))
        },
        UnlockStage::SecondTried(ok) => UnlockActionView::Done(ok),
    }
}

/// The next step of a deletion with force.
pub fn force_unlock_and_delete(paths: &Vec<FsPath>, stage: &UnlockStage) -> (r: UnlockAction)
    requires
        stage matches UnlockStage::StillThere(flags) ==> flags@.len() == paths@.len(),
    ensures
        r@ == unlock_action(path_views(paths@), *stage),
{
    match stage {
        UnlockStage::Begin => {
            if paths.len() == 0 {
                UnlockAction::Done(true)
            } else {
                UnlockAction::Delete(crate::paths::copy_paths(paths))
            }
        },
        UnlockStage::FirstTried(ok) => {
            if *ok {
                UnlockAction::Done(true)
            } else {
                UnlockAction::FindLockers
            }
        },
        UnlockStage::LockersFound(pids, own) => {
            if pids.len() == 0 {
                return UnlockAction::Done(false);
            }
            let mut list: Vec<u32> = Vec::new();
            for i in 0..pids.len()
                invariant
                    list@ == to_terminate(pids@.take(i as int), *own),
            {
                assert(pids@.take(i + 1).drop_last() =~= pids@.take(i as int));
                let pid: u32 = pids[i];
                if pid != *own && !holds_pid(&list, pid) {
                    list.push(pid);
                }
            }
            assert(pids@.take(pids@.len() as int) =~= pids@);
            UnlockAction::Terminate(list)
        },
        UnlockStage::StillThere(flags) => {
            let mut list: Vec<FsPath> = Vec::new();
            let ghost all = path_views(paths@);
            assert(path_views(list@) =~= flagged(all.take(0), flags@));
            for i in 0..paths.len()
                invariant
                    flags@.len() == paths@.len(),
                    all == path_views(paths@),
                    path_views(list@) == flagged(all.take(i as int), flags@),
            {
                assert(all.take(i + 1).drop_last() =~= all.take(i as int));
                let ghost before = path_views(list@);
                if flags[i] {
                    list.push(paths[i].copy());
                    assert(path_views(list@) =~= before.push(all[i as int]));
                }
            }
            assert(all.take(all.len() as int) =~= all);
            assert(path_views(list@).len() == list@.len());
            if list.len() == 0 {
                UnlockAction::Done(true)
            } else {
                UnlockAction::Delete(list)
            }
        },
        UnlockStage::SecondTried(ok) => UnlockAction::Done(*ok),
    }
}

/// A process as the system reports it: its number and the buffer with its
/// name.
pub struct LockRow {
    pub pid: u32,
    pub name: Vec<u16>,
}

/// The numbers and names of processes.
pub open spec fn process_views(v: Seq<(u32, String)>) -> Seq<(u32, Seq<char>)> {
    Seq::new(v.len(), |i: int| (v[i].0, v[i].1@))
}

/// The processes that hold a file, by number and name, given what the system
/// reports: each name ends at the first zero of its buffer.
pub fn find_locking_processes(rows: &Vec<LockRow>) -> (r: Vec<(u32, String)>)
    ensures
        process_views(r@) == Seq::new(
            rows@.len(),
            |i: int| (rows@[i].pid, decode_lossy(before_zero(rows@[i].name@))),
        ),
{
    let mut r: Vec<(u32, String)> = Vec::new();
    let ghost all = Seq::new(
        rows@.len(),
        |i: int| (rows@[i].pid, decode_lossy(before_zero(rows@[i].name@))),
    );
    for i in 0..rows.len()
        invariant
            all == Seq::new(
                rows@.len(),
                |i: int| (rows@[i].pid, decode_lossy(before_zero(rows@[i].name@))),
            ),
            process_views(r@) == all.take(i as int),
    {
        let ghost before = process_views(r@);
        r.push((rows[i].pid, text_before_zero(&rows[i].name)));
        assert(process_views(r@) =~= before.push(all[i as int]));
        assert(process_views(r@) =~= all.take(i + 1));
    }
    assert(all.take(rows@.len() as int) =~= all);
    r
}

/// Files add up one by one: a file of known size counts as one with its bytes, one of unknown size
/// does not count, and a folder counts for what it holds.
pub proof fn files_add_up(items: Seq<TreeItem>, n: u64, inner: Vec<TreeItem>)
    ensures
        files_in(Seq::empty()) == 0,
        bytes_in(Seq::empty()) == 0,
        files_in(items.push(TreeItem::File(Some(n)))) == files_in(items) + 1,
        bytes_in(items.push(TreeItem::File(Some(n)))) == bytes_in(items) + n,
        files_in(items.push(TreeItem::File(None))) == files_in(items),
        bytes_in(items.push(TreeItem::File(None))) == bytes_in(items),
        files_in(items.push(TreeItem::Folder(inner))) == files_in(items) + files_in(inner@),
        bytes_in(items.push(TreeItem::Folder(inner))) == bytes_in(items) + bytes_in(inner@),
{
    reveal_with_fuel(files_in, 2);
    reveal_with_fuel(bytes_in, 2);
    reveal_with_fuel(item_files, 2);
    reveal_with_fuel(item_bytes, 2);
    assert(items.push(TreeItem::File(Some(n))).drop_last() =~= items);
    assert(items.push(TreeItem::File(None)).drop_last() =~= items);
    assert(items.push(TreeItem::Folder(inner)).drop_last() =~= items);
}

/// After the programs that held files were ended, what is still there is deleted once more, and
/// nothing else is.
pub proof fn only_what_remains_is_deleted_again(
    paths: Seq<PathView>,
    p: PathView,
    flags: Seq<bool>,
    there: bool,
)
    requires
        paths.len() == flags.len(),
    ensures
        flagged(paths.push(p), flags.push(there)) == if there {
            flagged(paths, flags).push(p)
        } else {
            flagged(paths, flags)
        },
        flagged(Seq::empty(), flags).len() == 0,
{
    assert(paths.push(p).drop_last() =~= paths);
    flags_stay(paths, flags, flags.push(there));
}

proof fn flags_stay(paths: Seq<PathView>, a: Seq<bool>, b: Seq<bool>)
    requires
        paths.len() <= a.len(),
        paths.len() <= b.len(),
        forall|i: int| 0 <= i < paths.len() ==> a[i] == b[i],
    ensures
        flagged(paths, a) == flagged(paths, b),
    decreases paths.len(),
{
    if paths.len() > 0 {
        flags_stay(paths.drop_last(), a, b);
    }
}

/// A deletion with force begins with all items, is over once they are gone, gives up where no
/// program holds them, and otherwise ends those programs and tries what remains once more.
pub proof fn force_is_used_only_where_deleting_failed(paths: Seq<PathView>, stage: UnlockStage)
    ensures
        stage is Begin && paths.len() > 0 ==> unlock_action(paths, stage)
            == UnlockActionView::Delete(paths),
        stage == UnlockStage::FirstTried(true) ==> unlock_action(paths, stage)
            == UnlockActionView::Done(true),
        stage == UnlockStage::FirstTried(false) ==> unlock_action(paths, stage) is FindLockers,
        unlock_action(paths, stage) is Terminate ==> stage is LockersFound,
        (stage matches UnlockStage::LockersFound(pids, own) && pids@.len() == 0) ==> unlock_action(
            paths,
            stage,
        ) == UnlockActionView::Done(false),
        (stage matches UnlockStage::LockersFound(pids, own) && pids@.len() > 0) ==> (unlock_action(
            paths,
            stage,
        ) matches UnlockActionView::Terminate(list) && forall|q: u32| #[trigger]
            list.contains(q) <==> stage->LockersFound_0@.contains(q) && q
                != stage->LockersFound_1),
        (stage matches UnlockStage::SecondTried(ok)) ==> unlock_action(paths, stage)
            == UnlockActionView::Done(stage->SecondTried_0),
{
    if stage is LockersFound {
        terminates_each_once(stage->LockersFound_0@, stage->LockersFound_1);
    }
}

/// Once nothing is left of the items they count as deleted; what is left is deleted once more.
pub proof fn nothing_left_is_success(paths: Seq<PathView>, flags: Vec<bool>)
    requires
        flags@.len() == paths.len(),
    ensures
        (forall|i: int| 0 <= i < flags@.len() ==> !(#[trigger] flags@[i])) ==> unlock_action(
            paths,
            UnlockStage::StillThere(flags),
        ) == UnlockActionView::Done(true),
        (exists|i: int| 0 <= i < flags@.len() && #[trigger] flags@[i]) ==> (unlock_action(
            paths,
            UnlockStage::StillThere(flags),
        ) matches UnlockActionView::Delete(list) && list.len() > 0),
{
    some_flag_leaves_something(paths, flags@);
}

proof fn some_flag_leaves_something(paths: Seq<PathView>, flags: Seq<bool>)
    requires
        paths.len() <= flags.len(),
    ensures
        flagged(paths, flags).len() > 0 <==> exists|i: int|
            0 <= i < paths.len() && #[trigger] flags[i],
    decreases paths.len(),
{
    if paths.len() > 0 {
        some_flag_leaves_something(paths.drop_last(), flags);
        let n = paths.len() - 1;
        if exists|i: int| 0 <= i < paths.len() && #[trigger] flags[i] {
            let i = choose|i: int| 0 <= i < paths.len() && #[trigger] flags[i];
            if i < n {
                assert(flags[i]);
            }
        }
        if flagged(paths, flags).len() > 0 {
            if flags[n] {
                assert(flags[n]);
            }
        }
    }
}

} // verus!
