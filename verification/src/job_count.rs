//! How a copy job counts: what it has done and what lies ahead always add up to the files that it
//! began with.
use crate::copy_job::{ConflictChoice, CopyPhase, CopyReply, Work};
use crate::fs_ops::{files_in, item_files, TreeItem};
use vstd::prelude::*;

verus! {

/// What a job has not counted yet: the item that it works on, the entries that wait, and the
/// sources that come later, the next ones last.
#[verifier::ext_equal]
pub struct Ahead {
    pub now: Option<TreeItem>,
    pub waiting: Seq<TreeItem>,
    pub later: Seq<TreeItem>,
}

impl Ahead {
    /// The number of files.
    pub open spec fn files(self) -> nat {
        (match self.now {
            Some(item) => item_files(item),
            None => 0,
        }) + files_in(self.waiting) + files_in(self.later)
    }

    /// The next source comes.
    pub open spec fn next_source(self) -> Ahead {
        if self.later.len() == 0 {
            Ahead { now: None, waiting: Seq::empty(), later: Seq::empty() }
        } else {
            Ahead {
                now: Some(self.later.last()),
                waiting: Seq::empty(),
                later: self.later.drop_last(),
            }
        }
    }

    /// The item is counted: the next entry comes, or the original goes, or the next source comes.
    pub open spec fn counted(self, after: Work) -> Ahead {
        if self.waiting.len() > 0 {
            Ahead { now: Some(self.waiting.last()), waiting: self.waiting.drop_last(), ..self }
        } else if after.run.phase == CopyPhase::Recycle {
            Ahead { now: None, ..self }
        } else {
            self.next_source()
        }
    }

    /// What is ahead after a reply.
    pub open spec fn after(self, w: Work, reply: CopyReply) -> Ahead {
        let then = w.step(reply);
        match reply {
            CopyReply::Renamed(Some(_)) | CopyReply::Recycled => self.next_source(),
            CopyReply::Entries(_) => match self.now {
                Some(TreeItem::Folder(inside)) => (Ahead {
                    waiting: self.waiting + inside@.reverse(),
                    ..self
                }).counted(then),
                _ => self,
            },
            CopyReply::Facts(..) | CopyReply::Answer(_) | CopyReply::Copied => if then.run.phase
                == CopyPhase::CopyFile || then.run.phase == CopyPhase::Ask {
                self
            } else {
                self.counted(then)
            },
            _ => self,
        }
    }

    /// Whether this is what lies ahead of a job.
    pub open spec fn is_ahead_of(self, w: Work) -> bool {
        if w.run.phase == CopyPhase::Finished {
            self.files() == 0
        } else {
            &&& self.later.len() + w.run.at + 1 == w.run.sources.len()
            &&& self.now is None <==> w.run.phase == CopyPhase::Recycle
            &&& self.waiting.len() == if w.is_copying() && w.run.is_dir {
                w.run.pending.len()
            } else {
                0
            }
            &&& w.run.phase == CopyPhase::ProbeTarget || w.run.phase == CopyPhase::Rename || (
            w.run.phase matches CopyPhase::ProbeName(_)) ==> w.run.is_dir == (self.now->0 is Folder)
            &&& w.run.phase == CopyPhase::OpenDir ==> self.now->0 is Folder
            &&& w.run.phase == CopyPhase::Compare || w.run.phase == CopyPhase::Ask || w.run.phase
                == CopyPhase::CopyFile ==> self.now->0 is File
        }
    }
}

/// Whether a reply tells the truth of an item, and does not end the job.
pub open spec fn is_true_of(item: Option<TreeItem>, reply: CopyReply) -> bool {
    match reply {
        CopyReply::SourceIsDir(is_dir) => is_dir == (item->0 is Folder),
        CopyReply::EntryIsDir(is_dir) => is_dir == (item->0 is Folder),
        CopyReply::Renamed(Some((files, _))) => files == item_files(item->0),
        CopyReply::Entries(names) => item matches Some(TreeItem::Folder(inside)) && inside@.len()
            == names.len(),
        CopyReply::Answer(choice) => choice != ConflictChoice::Abort,
        CopyReply::NoAnswer => false,
        CopyReply::NotRecycled(_) => false,
        CopyReply::Refused(..) => false,
        _ => true,
    }
}

/// Whether a source is passed over: it has no name, or would be copied into itself or to where it
/// is.
pub open spec fn passes_over(w: Work, reply: CopyReply) -> bool {
    (reply is SourceIsDir || reply is NameTaken) && (w.step(reply).run.phase
        == CopyPhase::InspectSource || w.step(reply).run.phase == CopyPhase::Finished)
}

/// The files of two lists add up.
proof fn files_add_up(a: Seq<TreeItem>, b: Seq<TreeItem>)
    ensures
        files_in(a + b) == files_in(a) + files_in(b),
    decreases b.len(),
{
    if b.len() == 0 {
        assert(a + b =~= a);
    } else {
        files_add_up(a, b.drop_last());
        assert((a + b).drop_last() =~= a + b.drop_last());
        assert((a + b).last() == b.last());
    }
}

/// The files of a list do not depend on its direction.
proof fn files_either_way(items: Seq<TreeItem>)
    ensures
        files_in(items.reverse()) == files_in(items),
    decreases items.len(),
{
    if items.len() > 0 {
        let last = seq![items.last()];
        files_either_way(items.drop_last());
        assert(items.reverse() =~= last + items.drop_last().reverse());
        files_add_up(last, items.drop_last().reverse());
        assert(last.drop_last() =~= Seq::empty());
        assert(files_in(last.drop_last()) == 0);
        assert(last.last() == items.last());
        assert(files_in(last) == item_files(items.last()));
    } else {
        assert(items.reverse() =~= items);
    }
}

/// The next source takes nothing away but the item that was counted.
proof fn next_source_keeps_count(a: Ahead)
    requires
        a.waiting.len() == 0,
    ensures
        a.next_source().files() == files_in(a.later),
{
    assert(files_in(Seq::<TreeItem>::empty()) == 0);
}

/// Counting an item takes nothing else away.
proof fn counting_keeps_count(a: Ahead, after: Work)
    ensures
        a.counted(after).files() == files_in(a.waiting) + files_in(a.later),
{
    assert(files_in(Seq::<TreeItem>::empty()) == 0);
    if a.waiting.len() > 0 {
        assert(files_in(a.waiting) == files_in(a.waiting.drop_last()) + item_files(
            a.waiting.last(),
        ));
    } else {
        assert(a.waiting =~= Seq::empty());
        next_source_keeps_count(a);
    }
}

/// Whether a job is told the truth, can read what it finds, passes no source over and is not
/// cancelled.
spec fn can_be_counted(w: Work, a: Ahead, reply: CopyReply) -> bool {
    &&& w.sound()
    &&& w.awaits(reply)
    &&& !w.job.cancelled
    &&& a.is_ahead_of(w)
    &&& a.now != Some(TreeItem::File(None))
    &&& is_true_of(a.now, reply)
    &&& !passes_over(w, reply)
    &&& w.job.files_done + a.files() <= usize::MAX
}

/// Whether a step keeps the sum of what is done and what lies ahead.
spec fn keeps_count(w: Work, a: Ahead, reply: CopyReply) -> bool {
    &&& a.after(w, reply).is_ahead_of(w.step(reply))
    &&& w.step(reply).job.files_done + a.after(w, reply).files() == w.job.files_done + a.files()
}

/// A look at a source counts nothing.
proof fn a_look_at_a_source_counts_nothing(w: Work, a: Ahead, reply: CopyReply)
    requires
        can_be_counted(w, a, reply),
        reply is SourceIsDir,
    ensures
        keeps_count(w, a, reply),
{
    assert(files_in(Seq::<TreeItem>::empty()) == 0);
}

/// A look for a free name counts nothing.
proof fn a_look_at_a_name_counts_nothing(w: Work, a: Ahead, reply: CopyReply)
    requires
        can_be_counted(w, a, reply),
        reply is NameTaken,
    ensures
        keeps_count(w, a, reply),
{
    assert(files_in(Seq::<TreeItem>::empty()) == 0);
}

/// A look at a target or at an entry counts nothing.
proof fn a_look_at_a_target_counts_nothing(w: Work, a: Ahead, reply: CopyReply)
    requires
        can_be_counted(w, a, reply),
        reply is TargetTaken || reply is EntryIsDir,
    ensures
        keeps_count(w, a, reply),
{
    assert(files_in(Seq::<TreeItem>::empty()) == 0);
}

/// A rename counts the files that it moves, and so does the end of an original.
proof fn a_rename_counts_its_files(w: Work, a: Ahead, reply: CopyReply)
    requires
        can_be_counted(w, a, reply),
        reply is Renamed || reply is Recycled,
    ensures
        keeps_count(w, a, reply),
{
    assert(files_in(Seq::<TreeItem>::empty()) == 0);
    assert(a.waiting =~= Seq::empty());
    next_source_keeps_count(a);
}

/// The entries of a directory take its place.
proof fn a_listing_counts_what_it_holds(w: Work, a: Ahead, reply: CopyReply)
    requires
        can_be_counted(w, a, reply),
        reply is Entries,
    ensures
        keeps_count(w, a, reply),
{
    match a.now {
        Some(TreeItem::Folder(inside)) => {
            files_either_way(inside@);
            files_add_up(a.waiting, inside@.reverse());
            let more = Ahead { waiting: a.waiting + inside@.reverse(), ..a };
            counting_keeps_count(more, w.step(reply));
            assert(item_files(a.now->0) == files_in(inside@));
        },
        _ => {},
    }
}

/// A file that was held against another one counts once.
proof fn a_compared_file_counts_once(w: Work, a: Ahead, reply: CopyReply)
    requires
        can_be_counted(w, a, reply),
        reply is Facts,
    ensures
        keeps_count(w, a, reply),
{
    counting_keeps_count(a, w.step(reply));
}

/// A file that was asked about counts once.
proof fn an_answer_counts_once(w: Work, a: Ahead, reply: CopyReply)
    requires
        can_be_counted(w, a, reply),
        reply is Answer,
    ensures
        keeps_count(w, a, reply),
{
    counting_keeps_count(a, w.step(reply));
}

/// A file that was copied counts once.
proof fn a_copied_file_counts_once(w: Work, a: Ahead, reply: CopyReply)
    requires
        can_be_counted(w, a, reply),
        reply is Copied,
    ensures
        keeps_count(w, a, reply),
{
    counting_keeps_count(a, w.step(reply));
}

/// What a job has done and what lies ahead of it add up to the same at every step, as long as it
/// is told the truth, can read what it finds, passes no source over and is not cancelled.
pub proof fn a_job_counts_every_file(w: Work, a: Ahead, reply: CopyReply)
    requires
        w.sound(),
        w.awaits(reply),
        !w.job.cancelled,
        a.is_ahead_of(w),
        a.now != Some(TreeItem::File(None)),
        is_true_of(a.now, reply),
        !passes_over(w, reply),
        w.job.files_done + a.files() <= usize::MAX,
    ensures
        a.after(w, reply).is_ahead_of(w.step(reply)),
        w.step(reply).job.files_done + a.after(w, reply).files() == w.job.files_done + a.files(),
{
    assert(can_be_counted(w, a, reply));
    assert(keeps_count(w, a, reply)) by {
        match reply {
            CopyReply::SourceIsDir(_) => a_look_at_a_source_counts_nothing(w, a, reply),
            CopyReply::NameTaken(_) => a_look_at_a_name_counts_nothing(w, a, reply),
            CopyReply::TargetTaken(_) | CopyReply::EntryIsDir(_) => {
                a_look_at_a_target_counts_nothing(w, a, reply)
            },
            CopyReply::Renamed(_) | CopyReply::Recycled => a_rename_counts_its_files(w, a, reply),
            CopyReply::Entries(_) => a_listing_counts_what_it_holds(w, a, reply),
            CopyReply::Facts(..) => a_compared_file_counts_once(w, a, reply),
            CopyReply::Answer(_) => an_answer_counts_once(w, a, reply),
            CopyReply::Copied => a_copied_file_counts_once(w, a, reply),
            _ => {},
        }
    }
}

/// Such a job ends with every file done.
pub proof fn a_job_ends_with_every_file_done(w: Work, a: Ahead, reply: CopyReply)
    requires
        w.sound(),
        w.awaits(reply),
        !w.job.cancelled,
        a.is_ahead_of(w),
        a.now != Some(TreeItem::File(None)),
        is_true_of(a.now, reply),
        !passes_over(w, reply),
        w.job.files_done + a.files() == w.job.files_total,
        w.step(reply).run.phase == CopyPhase::Finished,
    ensures
        w.step(reply).job.files_done == w.job.files_total,
{
    a_job_counts_every_file(w, a, reply);
}

/// What lies ahead of a job that begins are the files of its sources.
pub proof fn a_job_begins_with_all_ahead(w: Work, items: Seq<TreeItem>)
    requires
        !w.job.cancelled,
        items.len() == w.run.sources.len(),
    ensures
        (Ahead { now: None, waiting: Seq::empty(), later: items.reverse() }).next_source(
        ).is_ahead_of(w.begin(0)),
        (Ahead { now: None, waiting: Seq::empty(), later: items.reverse() }).next_source().files()
            == files_in(items),
{
    files_either_way(items);
    next_source_keeps_count(
        Ahead { now: None, waiting: Seq::empty(), later: items.reverse() },
    );
    if items.len() == 0 {
        assert(items =~= Seq::empty());
    }
}

} // verus!
