//! The scan that finds the size of a folder: what it looks at next, and when it tells how far
//! it has come.
use crate::fs_ops::{add_to_dir_size, before_chunk, bytes_in, item_bytes, ChunkStep, TreeItem};
use crate::paths::{path_views, FsPath, PathView};
use crate::text::texts;
use vstd::prelude::*;

verus! {

/// What a scan waits for.
#[derive(Clone, Copy, PartialEq, Eq, Structural)]
pub enum ScanPhase {
    /// Leave to list the folder that is scanned.
    MayBegin,
    /// The names in the folder.
    ListFolder,
    /// Leave to look at the entry.
    MayGoOn,
    /// Whether the entry is a folder.
    Inspect,
    /// The size of the file.
    Measure,
    /// Nothing: the scan is over.
    Finished,
}

/// What a scan that is over has seen.
#[derive(Clone, Copy, PartialEq, Eq, Structural)]
pub enum ScanOutcome {
    /// All that can be seen.
    Complete,
    /// Nothing: the folder could not be listed.
    Unread,
    /// What it saw before it was cancelled.
    Cancelled,
}

/// A scan of a folder. The entries that are still to be looked at wait in a stack.
pub struct ScanRun {
    pub at: FsPath,
    pub pending: Vec<FsPath>,
    pub total: u64,
    /// Whether the folder that is scanned was listed.
    pub inside: bool,
    /// What was seen, once the scan is over.
    pub outcome: ScanOutcome,
    pub phase: ScanPhase,
}

/// The view of a `ScanRun`.
#[verifier::ext_equal]
pub struct ScanView {
    pub at: PathView,
    pub pending: Seq<PathView>,
    pub total: u64,
    pub inside: bool,
    pub outcome: ScanOutcome,
    pub phase: ScanPhase,
}

impl View for ScanRun {
    type V = ScanView;

    open spec fn view(&self) -> ScanView {
        ScanView {
            at: self.at@,
            pending: path_views(self.pending@),
            total: self.total,
            inside: self.inside,
            outcome: self.outcome,
            phase: self.phase,
        }
    }
}

impl ScanView {
    /// A scan that begins, with so many bytes counted before.
    pub open spec fn begun(root: PathView, total: u64) -> ScanView {
        ScanView {
            at: root,
            pending: Seq::empty(),
            total,
            inside: false,
            outcome: ScanOutcome::Complete,
            phase: ScanPhase::MayBegin,
        }
    }

    /// The scan turns to the next entry, or is over.
    pub open spec fn next(self) -> ScanView {
        if self.pending.len() == 0 {
            ScanView { phase: ScanPhase::Finished, ..self }
        } else {
            ScanView {
                at: self.pending.last(),
                pending: self.pending.drop_last(),
                phase: ScanPhase::MayGoOn,
                ..self
            }
        }
    }

    /// The folder is listed: its entries come next, in their order. A folder that cannot be
    /// listed is passed over; where it is the one that is scanned, nothing was seen.
    pub open spec fn listed(self, names: Option<Seq<Seq<char>>>) -> ScanView {
        match names {
            Some(list) => (ScanView {
                pending: self.pending + entries_in(self.at, list).reverse(),
                inside: true,
                ..self
            }).next(),
            None => (ScanView {
                outcome: if self.inside {
                    self.outcome
                } else {
                    ScanOutcome::Unread
                },
                ..self
            }).next(),
        }
    }

    /// A scan that is cancelled ends, and one that is paused waits.
    pub open spec fn let_on(self, cancelled: bool, paused: bool) -> ScanView {
        if cancelled {
            ScanView {
                pending: Seq::empty(),
                outcome: ScanOutcome::Cancelled,
                phase: ScanPhase::Finished,
                ..self
            }
        } else if paused {
            self
        } else if self.phase == ScanPhase::MayBegin {
            ScanView { phase: ScanPhase::ListFolder, ..self }
        } else {
            ScanView { phase: ScanPhase::Inspect, ..self }
        }
    }

    /// A folder is listed, and a file is measured.
    pub open spec fn inspected(self, is_dir: bool) -> ScanView {
        ScanView {
            phase: if is_dir {
                ScanPhase::ListFolder
            } else {
                ScanPhase::Measure
            },
            ..self
        }
    }

    /// The file counts for its size, where that is known.
    pub open spec fn measured(self, size: Option<u64>) -> ScanView {
        match size {
            Some(n) => (ScanView { total: (self.total + n) as u64, ..self }).next(),
            None => self.next(),
        }
    }
}

/// The paths of the entries of a folder.
pub open spec fn entries_in(dir: PathView, names: Seq<Seq<char>>) -> Seq<PathView> {
    Seq::new(names.len(), |i: int| dir.join(names[i]))
}

/// The sizes that are told of: where the next block of 65536 bytes was begun.
pub open spec fn told(before: u64, after: u64) -> Option<u64> {
    if after / 65536 != before / 65536 {
        Some(after)
    } else {
        None
    }
}

impl ScanRun {
    /// Begins to scan a folder, with so many bytes counted before.
    pub fn start(root: FsPath, total: u64) -> (r: ScanRun)
        ensures
            r@ == ScanView::begun(root@, total),
    {
        let r = ScanRun {
            at: root,
            pending: Vec::new(),
            total,
            inside: false,
            outcome: ScanOutcome::Complete,
            phase: ScanPhase::MayBegin,
        };
        assert(r@.pending =~= Seq::empty());
        r
    }

    /// Turns to the next entry.
    fn next(&mut self)
        ensures
            final(self)@ == old(self)@.next(),
    {
        let ghost before = self@;
        match self.pending.pop() {
            Some(p) => {
                self.at = p;
                self.phase = ScanPhase::MayGoOn;
                assert(self@.pending =~= before.pending.drop_last());
            },
            None => {
                self.phase = ScanPhase::Finished;
            },
        }
    }

    /// Goes on with the names in the folder. Tells the size so far where it cannot be listed.
    pub fn on_listed(&mut self, names: Option<&Vec<String>>) -> (r: Option<u64>)
        requires
            old(self).phase == ScanPhase::ListFolder,
        ensures
            final(self)@ == old(self)@.listed(
                match names {
                    Some(v) => Some(texts(v@)),
                    None => None,
                },
            ),
            r == match names {
                Some(_) => None::<u64>,
                None => Some(old(self)@.total),
            },
    {
        let ghost before = self@;
        match names {
            Some(list) => {
                let n: usize = list.len();
                let ghost all = entries_in(before.at, texts(list@));
                assert(before.pending + all.reverse().take(0) =~= before.pending);
                for i in 0..n
                    invariant
                        n == list@.len(),
                        all == entries_in(before.at, texts(list@)),
                        self@ == (ScanView {
                            pending: before.pending + all.reverse().take(i as int),
                            ..before
                        }),
                {
                    let ghost so_far = self@.pending;
                    self.pending.push(self.at.join(list[n - 1 - i].as_str()));
                    assert(self@.pending =~= so_far.push(all.reverse()[i as int]));
                    assert(self@.pending =~= before.pending + all.reverse().take(i + 1));
                }
                assert(all.reverse().take(n as int) =~= all.reverse());
                self.inside = true;
                self.next();
                None
            },
            None => {
                let total: u64 = self.total;
                if !self.inside {
                    self.outcome = ScanOutcome::Unread;
                }
                self.next();
                Some(total)
            },
        }
    }

    /// Goes on, waits or ends.
    pub fn on_flags(&mut self, cancelled: bool, paused: bool)
        requires
            old(self).phase == ScanPhase::MayBegin || old(self).phase == ScanPhase::MayGoOn,
        ensures
            final(self)@ == old(self)@.let_on(cancelled, paused),
    {
        match before_chunk(cancelled, paused) {
            ChunkStep::GiveUp => {
                self.pending = Vec::new();
                self.outcome = ScanOutcome::Cancelled;
                self.phase = ScanPhase::Finished;
                assert(self@.pending =~= Seq::empty());
            },
            ChunkStep::Wait => {},
            ChunkStep::Go => {
                self.phase = if self.phase == ScanPhase::MayBegin {
                    ScanPhase::ListFolder
                } else {
                    ScanPhase::Inspect
                };
            },
        }
    }

    /// Whether the scan saw all that can be seen: it was not cancelled, and the folder could be
    /// listed.
    pub fn is_complete(&self) -> (r: bool)
        ensures
            r == (self@.outcome == ScanOutcome::Complete),
    {
        match self.outcome {
            ScanOutcome::Complete => true,
            _ => false,
        }
    }

    /// Goes on once it is known whether the entry is a folder.
    pub fn on_inspected(&mut self, is_dir: bool)
        requires
            old(self).phase == ScanPhase::Inspect,
        ensures
            final(self)@ == old(self)@.inspected(is_dir),
    {
        self.phase = if is_dir {
            ScanPhase::ListFolder
        } else {
            ScanPhase::Measure
        };
    }

    /// Counts the file. Tells the size so far where another block of 65536 bytes was begun.
    pub fn on_measured(&mut self, size: Option<u64>) -> (r: Option<u64>)
        requires
            old(self).phase == ScanPhase::Measure,
            size matches Some(n) ==> old(self)@.total + n <= u64::MAX,
        ensures
            final(self)@ == old(self)@.measured(size),
            r == told(old(self)@.total, final(self)@.total),
    {
        let report: Option<u64> = match size {
            Some(n) => add_to_dir_size(&mut self.total, n),
            None => None,
        };
        self.next();
        report
    }
}

// ---------------------------------------------------------------------------
// Laws
// ---------------------------------------------------------------------------

/// What a scan is told.
pub enum ScanReply {
    Listed(Option<Seq<Seq<char>>>),
    Flags(bool, bool),
    Inspected(bool),
    Measured(Option<u64>),
}

impl ScanView {
    /// Whether the scan waits for this.
    pub open spec fn awaits(self, reply: ScanReply) -> bool {
        match reply {
            ScanReply::Listed(_) => self.phase == ScanPhase::ListFolder,
            ScanReply::Flags(..) => self.phase == ScanPhase::MayBegin || self.phase
                == ScanPhase::MayGoOn,
            ScanReply::Inspected(_) => self.phase == ScanPhase::Inspect,
            ScanReply::Measured(_) => self.phase == ScanPhase::Measure,
        }
    }

    /// The scan once it is told.
    pub open spec fn step(self, reply: ScanReply) -> ScanView {
        match reply {
            ScanReply::Listed(names) => self.listed(names),
            ScanReply::Flags(cancelled, paused) => self.let_on(cancelled, paused),
            ScanReply::Inspected(is_dir) => self.inspected(is_dir),
            ScanReply::Measured(size) => self.measured(size),
        }
    }

    /// How many items the scan has not passed yet.
    pub open spec fn ahead(self) -> nat {
        if self.phase == ScanPhase::Finished {
            0
        } else {
            self.pending.len() + 1
        }
    }
}

/// Whether a reply tells of the item, with the scan not cancelled. A folder that cannot be
/// listed is taken to hold nothing.
pub open spec fn is_true_of(item: TreeItem, reply: ScanReply) -> bool {
    match reply {
        ScanReply::Listed(names) => item matches TreeItem::Folder(inside) && inside@.len()
            == match names {
            Some(list) => list.len(),
            None => 0,
        },
        ScanReply::Flags(cancelled, _) => !cancelled,
        ScanReply::Inspected(is_dir) => is_dir == (item is Folder),
        ScanReply::Measured(size) => item == TreeItem::File(size),
    }
}

/// The items that are ahead once the scan was told of the last of them.
pub open spec fn still_ahead(items: Seq<TreeItem>, reply: ScanReply) -> Seq<TreeItem> {
    match reply {
        ScanReply::Listed(_) => match items.last() {
            TreeItem::Folder(inside) => items.drop_last() + inside@.reverse(),
            TreeItem::File(_) => items.drop_last(),
        },
        ScanReply::Measured(_) => items.drop_last(),
        _ => items,
    }
}

/// The bytes of two lists add up.
proof fn bytes_add_up(a: Seq<TreeItem>, b: Seq<TreeItem>)
    ensures
        bytes_in(a + b) == bytes_in(a) + bytes_in(b),
    decreases b.len(),
{
    if b.len() == 0 {
        assert(a + b =~= a);
    } else {
        bytes_add_up(a, b.drop_last());
        assert((a + b).drop_last() =~= a + b.drop_last());
        assert((a + b).last() == b.last());
    }
}

/// The bytes of a list do not depend on its direction.
proof fn bytes_either_way(items: Seq<TreeItem>)
    ensures
        bytes_in(items.reverse()) == bytes_in(items),
    decreases items.len(),
{
    if items.len() > 0 {
        let last = seq![items.last()];
        bytes_either_way(items.drop_last());
        assert(items.reverse() =~= last + items.drop_last().reverse());
        bytes_add_up(last, items.drop_last().reverse());
        assert(last.drop_last() =~= Seq::empty());
        assert(bytes_in(last.drop_last()) == 0);
        assert(last.last() == items.last());
        assert(bytes_in(last) == item_bytes(items.last()));
    } else {
        assert(items.reverse() =~= items);
    }
}

/// What was counted and what is ahead add up to the same at every step: no file is left out, and
/// none is counted twice.
pub proof fn a_scan_loses_nothing(v: ScanView, items: Seq<TreeItem>, reply: ScanReply)
    requires
        v.awaits(reply),
        items.len() == v.ahead(),
        is_true_of(items.last(), reply),
        v.total + bytes_in(items) <= u64::MAX,
    ensures
        still_ahead(items, reply).len() == v.step(reply).ahead(),
        v.step(reply).total + bytes_in(still_ahead(items, reply)) == v.total + bytes_in(items),
{
    let rest = items.drop_last();
    match items.last() {
        TreeItem::Folder(inside) => {
            bytes_add_up(rest, inside@.reverse());
            bytes_either_way(inside@);
            assert(item_bytes(items.last()) == bytes_in(inside@));
        },
        TreeItem::File(size) => {
            assert(item_bytes(items.last()) == match size {
                Some(n) => n as nat,
                None => 0,
            });
        },
    }
}

/// A scan that is told everything ends with the bytes of the folder.
pub proof fn a_scan_ends_with_the_sum(v: ScanView, items: Seq<TreeItem>, reply: ScanReply)
    requires
        v.awaits(reply),
        items.len() == v.ahead(),
        is_true_of(items.last(), reply),
        v.total + bytes_in(items) <= u64::MAX,
        v.step(reply).phase == ScanPhase::Finished,
    ensures
        v.step(reply).total == v.total + bytes_in(items),
{
    a_scan_loses_nothing(v, items, reply);
}

/// A scan that is cancelled looks at nothing more, keeps what it has counted, and says so.
pub proof fn a_cancelled_scan_ends(v: ScanView, paused: bool)
    ensures
        v.let_on(true, paused).outcome == ScanOutcome::Cancelled,
        v.let_on(true, paused).phase == ScanPhase::Finished,
        v.let_on(true, paused).pending.len() == 0,
        v.let_on(true, paused).total == v.total,
{
}

impl ScanView {
    /// What holds of a scan before and after every step.
    pub open spec fn sound(self) -> bool {
        &&& self.phase != ScanPhase::Finished ==> self.outcome == ScanOutcome::Complete
        &&& !self.inside ==> self.pending.len() == 0
        &&& self.phase == ScanPhase::MayBegin ==> !self.inside
    }
}

/// A scan ends as complete unless it was cancelled or the folder could not be listed, and one that
/// was not complete is over. Nothing is looked at before there was leave to.
pub proof fn the_end_of_a_scan_tells(v: ScanView, reply: ScanReply)
    requires
        v.sound(),
        v.awaits(reply),
    ensures
        v.step(reply).sound(),
        v.step(reply).outcome == match reply {
            ScanReply::Flags(true, _) => ScanOutcome::Cancelled,
            ScanReply::Listed(None) => if v.inside {
                ScanOutcome::Complete
            } else {
                ScanOutcome::Unread
            },
            _ => ScanOutcome::Complete,
        },
        v.step(reply).outcome != ScanOutcome::Complete ==> v.step(reply).phase
            == ScanPhase::Finished,
        v.phase == ScanPhase::MayBegin && v.step(reply).phase == ScanPhase::ListFolder ==> reply
            matches ScanReply::Flags(false, false),
{
}

/// A scan that begins is sound, and waits for leave.
pub proof fn a_scan_begins_with_leave(root: PathView, total: u64)
    ensures
        ScanView::begun(root, total).sound(),
        ScanView::begun(root, total).let_on(true, false) == (ScanView {
            outcome: ScanOutcome::Cancelled,
            phase: ScanPhase::Finished,
            ..ScanView::begun(root, total)
        }),
{
}

/// The entries of a folder are looked at in the order in which they were listed, before what was
/// waiting already.
pub proof fn entries_are_scanned_in_order(v: ScanView, names: Seq<Seq<char>>)
    requires
        names.len() > 0,
    ensures
        v.listed(Some(names)).at == v.at.join(names[0]),
        v.listed(Some(names)).phase == ScanPhase::MayGoOn,
        v.listed(Some(names)).pending.len() == v.pending.len() + names.len() - 1,
        names.len() > 1 ==> v.listed(Some(names)).next().at == v.at.join(names[1]),
        names.len() == 1 && v.pending.len() > 0 ==> v.listed(Some(names)).next().at
            == v.pending.last(),
        v.listed(Some(names)).total == v.total,
{
    let entries = entries_in(v.at, names).reverse();
    let all = v.pending + entries;
    assert(all.last() == entries[names.len() - 1]);
    if names.len() > 1 {
        assert(all.drop_last().last() == entries[names.len() - 2]);
    } else {
        assert(all.drop_last() =~= v.pending);
    }
}

/// A file counts for its bytes and a folder is listed; an empty folder and a file of unknown size
/// add nothing, and the scan goes on with what waits.
pub proof fn files_count_and_folders_are_listed(v: ScanView, n: u64)
    requires
        v.total + n <= u64::MAX,
    ensures
        v.inspected(true).phase == ScanPhase::ListFolder,
        v.inspected(false).phase == ScanPhase::Measure,
        v.inspected(true).at == v.at,
        v.inspected(false).at == v.at,
        v.measured(Some(n)).total == v.total + n,
        v.measured(None).total == v.total,
        v.measured(Some(n)).phase == v.next().phase,
        v.pending.len() > 0 ==> v.measured(Some(n)).at == v.pending.last(),
        v.pending.len() == 0 ==> v.measured(Some(n)).phase == ScanPhase::Finished,
        v.listed(None).total == v.total,
{
}

/// What was counted is told whenever it passes another multiple of 65536, and not in between.
pub proof fn sizes_are_told_block_by_block(before: u64, after: u64, k: u64)
    requires
        before <= after,
    ensures
        before < 65536 * k <= after ==> told(before, after) == Some(after),
        65536 * k <= before && after < 65536 * (k + 1) ==> told(before, after) is None,
{
}

/// A scan that is paused waits as it is, and one that may go on lists its folder or looks at its
/// entry.
pub proof fn a_paused_scan_waits(v: ScanView)
    ensures
        v.let_on(false, true) == v,
        v.phase == ScanPhase::MayBegin ==> v.let_on(false, false).phase == ScanPhase::ListFolder,
        v.phase == ScanPhase::MayGoOn ==> v.let_on(false, false).phase == ScanPhase::Inspect,
        v.let_on(false, false).at == v.at,
        v.let_on(false, false).pending == v.pending,
        v.let_on(false, false).total == v.total,
        v.let_on(true, false).phase == ScanPhase::Finished,
        v.let_on(true, false).outcome == ScanOutcome::Cancelled,
        v.let_on(true, true) == v.let_on(true, false),
        v.let_on(true, false).total == v.total,
{
}

} // verus!
