//! The queue of copy jobs: two jobs that touch the same drive never run at
//! the same time.
use crate::paths::{path_views, FsPath, PathPrefix, PathView, PrefixView};
use vstd::prelude::*;

verus! {

// ---------------------------------------------------------------------------
// Drives
// ---------------------------------------------------------------------------

/// `b` as a character, a small letter made a capital.
pub open spec fn capital(b: u8) -> char {
    if 97 <= b <= 122 {
        (b - 32) as u8 as char
    } else {
        b as char
    }
}

/// The drive letter of a path, as a capital.
pub open spec fn drive_letter(p: PathView) -> Option<char> {
    match p.prefix {
        PrefixView::Disk(b) | PrefixView::VerbatimDisk(b) => Some(capital(b)),
        _ => None,
    }
}

/// The drives that a job from `sources` to `dest` touches. Paths without a
/// drive letter add none.
pub open spec fn drives(sources: Seq<PathView>, dest: PathView) -> Set<char> {
    Set::new(
        |c: char|
            drive_letter(dest) == Some(c) || exists|i: int|
                0 <= i < sources.len() && drive_letter(#[trigger] sources[i]) == Some(c),
    )
}

/// The drive letter of a path.
pub fn letter_of(p: &FsPath) -> (r: Option<char>)
    ensures
        r == drive_letter(p@),
{
    match &p.prefix {
        PathPrefix::Disk(b) | PathPrefix::VerbatimDisk(b) => {
            if *b >= 97 && *b <= 122 {
                Some((*b - 32) as char)
            } else {
                Some(*b as char)
            }
        },
        _ => None,
    }
}

/// Whether `c` is one of `list`.
fn holds_letter(list: &Vec<char>, c: char) -> (r: bool)
    ensures
        r == list@.contains(c),
{
    for i in 0..list.len()
        invariant
            forall|k: int| 0 <= k < i ==> list@[k] != c,
    {
        if list[i] == c {
            return true;
        }
    }
    false
}

/// Adds the drive of `p`, if it has one that is not there yet.
fn add_drive(list: &mut Vec<char>, p: &FsPath)
    requires
        old(list)@.no_duplicates(),
    ensures
        final(list)@.no_duplicates(),
        forall|c: char| #[trigger]
            final(list)@.contains(c) <==> old(list)@.contains(c) || drive_letter(p@) == Some(c),
{
    match letter_of(p) {
        Some(c) => {
            if !holds_letter(list, c) {
                list.push(c);
                assert forall|d: char| #[trigger]
                    list@.contains(d) <==> old(list)@.contains(d) || c == d by {
                    if old(list)@.contains(d) {
                        assert(list@[old(list)@.index_of(d)] == d);
                    }
                    assert(list@[list@.len() - 1] == c);
                    if list@.contains(d) {
                        let i = list@.index_of(d);
                        if i < old(list)@.len() {
                            assert(old(list)@[i] == d);
                        }
                    }
                }
            }
        },
        None => {},
    }
}

/// The drives that a job from `sources` to `dest` touches, each once.
pub fn drives_of(sources: &Vec<FsPath>, dest: &FsPath) -> (r: Vec<char>)
    ensures
        r@.no_duplicates(),
        r@.to_set() == drives(path_views(sources@), dest@),
{
    let mut list: Vec<char> = Vec::new();
    let ghost all = path_views(sources@);
    for i in 0..sources.len()
        invariant
            all == path_views(sources@),
            list@.no_duplicates(),
            forall|c: char| #[trigger]
                list@.contains(c) <==> exists|k: int|
                    0 <= k < i && drive_letter(#[trigger] all[k]) == Some(c),
    {
        let ghost before = list@;
        add_drive(&mut list, &sources[i]);
        assert forall|c: char| #[trigger]
            list@.contains(c) <==> exists|k: int|
                0 <= k < i + 1 && drive_letter(#[trigger] all[k]) == Some(c) by {
            if list@.contains(c) {
                if before.contains(c) {
                    let k = choose|k: int|
                        0 <= k < i && drive_letter(#[trigger] all[k]) == Some(c);
                    assert(drive_letter(all[k]) == Some(c));
                } else {
                    assert(drive_letter(all[i as int]) == Some(c));
                }
            }
            if exists|k: int| 0 <= k < i + 1 && drive_letter(#[trigger] all[k]) == Some(c) {
                let k = choose|k: int|
                    0 <= k < i + 1 && drive_letter(#[trigger] all[k]) == Some(c);
                if k < i {
                    assert(before.contains(c));
                }
            }
        }
    }
    add_drive(&mut list, dest);
    assert(list@.to_set() =~= drives(all, dest@));
    list
}

// ---------------------------------------------------------------------------
// The queue
// ---------------------------------------------------------------------------

/// A job that waits: its number, its sources and its destination.
pub struct QueuedCopy {
    pub id: u64,
    pub sources: Vec<FsPath>,
    pub dest: FsPath,
}

/// A job that runs: its number and the drives it touches.
pub struct RunningCopy {
    pub id: u64,
    pub drives: Vec<char>,
}

/// The jobs that run and the jobs that wait, the oldest first.
pub struct CopyQueue {
    pub running: Vec<RunningCopy>,
    pub pending: Vec<QueuedCopy>,
}

/// The view of a `QueuedCopy`.
#[verifier::ext_equal]
pub struct QueuedView {
    pub id: u64,
    pub sources: Seq<PathView>,
    pub dest: PathView,
}

/// The view of a `RunningCopy`.
#[verifier::ext_equal]
pub struct RunningView {
    pub id: u64,
    pub drives: Set<char>,
}

impl View for QueuedCopy {
    type V = QueuedView;

    open spec fn view(&self) -> QueuedView {
        QueuedView { id: self.id, sources: path_views(self.sources@), dest: self.dest@ }
    }
}

impl View for RunningCopy {
    type V = RunningView;

    open spec fn view(&self) -> RunningView {
        RunningView { id: self.id, drives: self.drives@.to_set() }
    }
}

impl QueuedView {
    /// The job as it runs.
    pub open spec fn launched(self) -> RunningView {
        RunningView { id: self.id, drives: drives(self.sources, self.dest) }
    }
}

/// The views of the jobs that wait.
pub open spec fn queued_views(v: Seq<QueuedCopy>) -> Seq<QueuedView> {
    Seq::new(v.len(), |i: int| v[i]@)
}

/// The views of the jobs that run.
pub open spec fn running_views(v: Seq<RunningCopy>) -> Seq<RunningView> {
    Seq::new(v.len(), |i: int| v[i]@)
}

/// Whether a job on the drives `d` would share one with a job that runs.
pub open spec fn is_blocked(running: Seq<RunningView>, d: Set<char>) -> bool {
    exists|i: int| 0 <= i < running.len() && !(#[trigger] running[i]).drives.disjoint(d)
}

/// Whether no two jobs that run share a drive.
pub open spec fn is_apart(running: Seq<RunningView>) -> bool {
    forall|i: int, j: int|
        0 <= i < j < running.len() ==> (#[trigger] running[i]).drives.disjoint(
            (#[trigger] running[j]).drives,
        )
}

/// The jobs as they run.
pub open spec fn all_launched(jobs: Seq<QueuedView>) -> Seq<RunningView> {
    Seq::new(jobs.len(), |i: int| jobs[i].launched())
}

/// The jobs of `pending` that can run and those that go on waiting: from the
/// oldest on, a job runs if it shares no drive with one that runs already.
pub open spec fn advanced(running: Seq<RunningView>, pending: Seq<QueuedView>) -> (
    Seq<QueuedView>,
    Seq<QueuedView>,
)
    decreases pending.len(),
{
    if pending.len() == 0 {
        (Seq::empty(), Seq::empty())
    } else {
        let (started, left) = advanced(running, pending.drop_last());
        let job = pending.last();
        if is_blocked(running + all_launched(started), drives(job.sources, job.dest)) {
            (started, left.push(job))
        } else {
            (started.push(job), left)
        }
    }
}

/// The items that are not marked.
pub open spec fn left_over<A>(list: Seq<A>, gone: Seq<bool>) -> Seq<A>
    decreases list.len(),
{
    if list.len() == 0 {
        Seq::empty()
    } else if gone[0] {
        left_over(list.drop_first(), gone.drop_first())
    } else {
        seq![list[0]] + left_over(list.drop_first(), gone.drop_first())
    }
}

/// The items that are marked.
pub open spec fn taken_out<A>(list: Seq<A>, gone: Seq<bool>) -> Seq<A>
    decreases list.len(),
{
    if list.len() == 0 {
        Seq::empty()
    } else if gone[0] {
        seq![list[0]] + taken_out(list.drop_first(), gone.drop_first())
    } else {
        taken_out(list.drop_first(), gone.drop_first())
    }
}

/// The numbers of jobs that run.
pub open spec fn running_ids(jobs: Seq<RunningView>) -> Seq<u64> {
    jobs.map_values(|j: RunningView| j.id)
}

/// The numbers of jobs that wait.
pub open spec fn queued_ids(jobs: Seq<QueuedView>) -> Seq<u64> {
    jobs.map_values(|j: QueuedView| j.id)
}

/// What came of the jobs: the numbers of those that are over and of those that are given up, and
/// the jobs to be run.
pub struct Settled {
    pub finished: Vec<u64>,
    pub dropped: Vec<u64>,
    pub launched: Vec<QueuedCopy>,
}

/// Two lists of letters with a letter in common.
fn share_letter(a: &Vec<char>, b: &Vec<char>) -> (r: bool)
    ensures
        r == !a@.to_set().disjoint(b@.to_set()),
{
    for i in 0..a.len()
        invariant
            forall|k: int| 0 <= k < i ==> !b@.contains(#[trigger] a@[k]),
    {
        if holds_letter(b, a[i]) {
            assert(a@.to_set().contains(a@[i as int]));
            assert(b@.to_set().contains(a@[i as int]));
            return true;
        }
    }
    assert forall|c: char| a@.to_set().contains(c) implies !b@.to_set().contains(c) by {
        let k = a@.index_of(c);
        assert(a@[k] == c);
    }
    false
}

impl CopyQueue {
    /// What holds of the queue at all times.
    pub open spec fn wf(&self) -> bool {
        is_apart(running_views(self.running@))
    }

    /// A queue without jobs.
    pub fn new() -> (r: CopyQueue)
        ensures
            r.wf(),
            r.running@.len() == 0,
            r.pending@.len() == 0,
    {
        CopyQueue { running: Vec::new(), pending: Vec::new() }
    }

    /// Whether a job on these drives has to wait.
    fn blocked(&self, d: &Vec<char>) -> (r: bool)
        ensures
            r == is_blocked(running_views(self.running@), d@.to_set()),
    {
        for i in 0..self.running.len()
            invariant
                forall|k: int|
                    0 <= k < i ==> (#[trigger] running_views(self.running@)[k]).drives.disjoint(
                        d@.to_set(),
                    ),
        {
            if share_letter(&self.running[i].drives, d) {
                assert(!running_views(self.running@)[i as int].drives.disjoint(d@.to_set()));
                return true;
            }
            assert(running_views(self.running@)[i as int].drives.disjoint(d@.to_set()));
        }
        false
    }

    /// Notes that a job runs.
    fn launch(&mut self, job: &QueuedCopy, d: Vec<char>)
        requires
            old(self).wf(),
            d@.to_set() == drives(job@.sources, job@.dest),
            !is_blocked(running_views(old(self).running@), d@.to_set()),
        ensures
            final(self).wf(),
            final(self).pending == old(self).pending,
            running_views(final(self).running@) == running_views(old(self).running@).push(
                job@.launched(),
            ),
    {
        let ghost before = running_views(self.running@);
        self.running.push(RunningCopy { id: job.id, drives: d });
        assert(running_views(self.running@) =~= before.push(job@.launched()));
    }

    /// Adds a job: it is handed back to be run, or waits where it shares a
    /// drive with a job that runs.
    pub fn start_copy_job(&mut self, job: QueuedCopy) -> (r: Option<QueuedCopy>)
        requires
            old(self).wf(),
        ensures
            final(self).wf(),
            match r {
                Some(j) => {
                    &&& j@ == job@
                    &&& !is_blocked(
                        running_views(old(self).running@),
                        drives(job@.sources, job@.dest),
                    )
                    &&& running_views(final(self).running@) == running_views(
                        old(self).running@,
                    ).push(job@.launched())
                    &&& final(self).pending@ == old(self).pending@
                },
                None => {
                    &&& is_blocked(
                        running_views(old(self).running@),
                        drives(job@.sources, job@.dest),
                    )
                    &&& final(self).running@ == old(self).running@
                    &&& final(self).pending@ == old(self).pending@.push(job)
                },
            },
    {
        let d = drives_of(&job.sources, &job.dest);
        if self.blocked(&d) {
            self.pending.push(job);
            None
        } else {
            self.launch(&job, d);
            Some(job)
        }
    }

    /// Takes out the job at position `i`, which is over.
    fn finish(&mut self, i: usize)
        requires
            old(self).wf(),
            i < old(self).running@.len(),
        ensures
            final(self).wf(),
            final(self).running@ == old(self).running@.remove(i as int),
            final(self).pending == old(self).pending,
    {
        let ghost before = running_views(self.running@);
        self.running.remove(i);
        let ghost after = running_views(self.running@);
        assert(after =~= before.remove(i as int));
        assert forall|a: int, b: int| 0 <= a < b < after.len() implies (
        #[trigger] after[a]).drives.disjoint((#[trigger] after[b]).drives) by {
            let x = if a < i {
                a
            } else {
                a + 1
            };
            let y = if b < i {
                b
            } else {
                b + 1
            };
            assert(before[x].drives.disjoint(before[y].drives));
        }
    }

    /// Takes out the jobs that are over.
    fn take_finished(&mut self, done: &Vec<bool>) -> (r: Vec<u64>)
        requires
            old(self).wf(),
            done@.len() == old(self).running@.len(),
        ensures
            final(self).wf(),
            final(self).pending == old(self).pending,
            running_views(final(self).running@) == left_over(
                running_views(old(self).running@),
                done@,
            ),
            r@ == running_ids(taken_out(running_views(old(self).running@), done@)),
    {
        let ghost before = running_views(self.running@);
        let mut ids: Vec<u64> = Vec::new();
        let mut i: usize = done.len();
        assert(before.take(i as int) =~= before);
        assert(before.skip(i as int) =~= Seq::empty());
        assert(running_views(self.running@) =~= before.take(i as int) + left_over(
            before.skip(i as int),
            done@.skip(i as int),
        ));
        assert(ids@ =~= running_ids(taken_out(before.skip(i as int), done@.skip(i as int))));
        while i > 0
            invariant
                i <= done@.len(),
                done@.len() == before.len(),
                self.wf(),
                self.pending == old(self).pending,
                running_views(self.running@) == before.take(i as int) + left_over(
                    before.skip(i as int),
                    done@.skip(i as int),
                ),
                ids@ == running_ids(taken_out(before.skip(i as int), done@.skip(i as int))),
            decreases i,
        {
            let ghost kept = left_over(before.skip(i as int), done@.skip(i as int));
            let ghost out = taken_out(before.skip(i as int), done@.skip(i as int));
            let ghost now = running_views(self.running@);
            i = i - 1;
            let ghost tail = before.skip(i as int);
            assert(tail.drop_first() =~= before.skip(i + 1));
            assert(done@.skip(i as int).drop_first() =~= done@.skip(i + 1));
            assert(tail[0] == before[i as int]);
            assert(now.len() == self.running@.len());
            assert(now[i as int] == before[i as int]);
            if done[i] {
                let id: u64 = self.running[i].id;
                assert(id == before[i as int].id);
                ids.insert(0, id);
                self.finish(i);
                assert(running_views(self.running@) =~= now.remove(i as int));
                assert(now.remove(i as int) =~= before.take(i as int) + kept);
                assert(ids@ =~= running_ids(seq![before[i as int]] + out));
            } else {
                assert(now =~= before.take(i as int) + (seq![before[i as int]] + kept));
            }
        }
        assert(before.take(0) =~= Seq::empty());
        assert(before.skip(0) =~= before);
        assert(done@.skip(0) =~= done@);
        assert(running_views(self.running@) =~= left_over(before, done@));
        ids
    }

    /// Takes out the jobs that wait and were cancelled.
    fn take_cancelled(&mut self, cancelled: &Vec<bool>) -> (r: Vec<u64>)
        requires
            old(self).wf(),
            cancelled@.len() == old(self).pending@.len(),
        ensures
            final(self).wf(),
            final(self).running == old(self).running,
            queued_views(final(self).pending@) == left_over(
                queued_views(old(self).pending@),
                cancelled@,
            ),
            r@ == queued_ids(taken_out(queued_views(old(self).pending@), cancelled@)),
    {
        let ghost before = queued_views(self.pending@);
        let mut ids: Vec<u64> = Vec::new();
        let mut i: usize = cancelled.len();
        assert(before.take(i as int) =~= before);
        assert(before.skip(i as int) =~= Seq::empty());
        assert(queued_views(self.pending@) =~= before.take(i as int) + left_over(
            before.skip(i as int),
            cancelled@.skip(i as int),
        ));
        assert(ids@ =~= queued_ids(taken_out(before.skip(i as int), cancelled@.skip(i as int))));
        while i > 0
            invariant
                i <= cancelled@.len(),
                cancelled@.len() == before.len(),
                self.wf(),
                self.running == old(self).running,
                queued_views(self.pending@) == before.take(i as int) + left_over(
                    before.skip(i as int),
                    cancelled@.skip(i as int),
                ),
                ids@ == queued_ids(taken_out(before.skip(i as int), cancelled@.skip(i as int))),
            decreases i,
        {
            let ghost kept = left_over(before.skip(i as int), cancelled@.skip(i as int));
            let ghost out = taken_out(before.skip(i as int), cancelled@.skip(i as int));
            let ghost now = queued_views(self.pending@);
            i = i - 1;
            let ghost tail = before.skip(i as int);
            assert(tail.drop_first() =~= before.skip(i + 1));
            assert(cancelled@.skip(i as int).drop_first() =~= cancelled@.skip(i + 1));
            assert(tail[0] == before[i as int]);
            assert(now.len() == self.pending@.len());
            assert(now[i as int] == before[i as int]);
            if cancelled[i] {
                let job = self.pending.remove(i);
                assert(job.id == before[i as int].id);
                ids.insert(0, job.id);
                assert(queued_views(self.pending@) =~= now.remove(i as int));
                assert(now.remove(i as int) =~= before.take(i as int) + kept);
                assert(ids@ =~= queued_ids(seq![before[i as int]] + out));
            } else {
                assert(now =~= before.take(i as int) + (seq![before[i as int]] + kept));
            }
        }
        assert(before.take(0) =~= Seq::empty());
        assert(before.skip(0) =~= before);
        assert(cancelled@.skip(0) =~= cancelled@);
        assert(queued_views(self.pending@) =~= left_over(before, cancelled@));
        ids
    }

    /// Takes out the jobs that are over and those that wait and were cancelled, and launches
    /// those that can run now.
    pub fn settle(&mut self, done: &Vec<bool>, cancelled: &Vec<bool>) -> (r: Settled)
        requires
            old(self).wf(),
            done@.len() == old(self).running@.len(),
            cancelled@.len() == old(self).pending@.len(),
        ensures
            final(self).wf(),
            r.finished@ == running_ids(taken_out(running_views(old(self).running@), done@)),
            r.dropped@ == queued_ids(taken_out(queued_views(old(self).pending@), cancelled@)),
            queued_views(r.launched@) == advanced(
                left_over(running_views(old(self).running@), done@),
                left_over(queued_views(old(self).pending@), cancelled@),
            ).0,
            queued_views(final(self).pending@) == advanced(
                left_over(running_views(old(self).running@), done@),
                left_over(queued_views(old(self).pending@), cancelled@),
            ).1,
            running_views(final(self).running@) == left_over(
                running_views(old(self).running@),
                done@,
            ) + all_launched(queued_views(r.launched@)),
    {
        let finished = self.take_finished(done);
        let dropped = self.take_cancelled(cancelled);
        let launched = self.advance_copy_queue();
        Settled { finished, dropped, launched }
    }

    /// Launches every job that waits and can run, and hands those back.
    pub fn advance_copy_queue(&mut self) -> (r: Vec<QueuedCopy>)
        requires
            old(self).wf(),
        ensures
            final(self).wf(),
            queued_views(r@) == advanced(
                running_views(old(self).running@),
                queued_views(old(self).pending@),
            ).0,
            queued_views(final(self).pending@) == advanced(
                running_views(old(self).running@),
                queued_views(old(self).pending@),
            ).1,
            running_views(final(self).running@) == running_views(old(self).running@)
                + all_launched(queued_views(r@)),
            forall|i: int|
                0 <= i < final(self).pending@.len() ==> is_blocked(
                    running_views(final(self).running@),
                    drives(
                        (#[trigger] queued_views(final(self).pending@)[i]).sources,
                        queued_views(final(self).pending@)[i].dest,
                    ),
                ),
    {
        let ghost running0 = running_views(self.running@);
        let ghost pending0 = queued_views(self.pending@);
        let mut waiting: Vec<QueuedCopy> = Vec::new();
        std::mem::swap(&mut waiting, &mut self.pending);
        let mut started: Vec<QueuedCopy> = Vec::new();
        let mut done: usize = 0;
        let n: usize = waiting.len();
        assert(self.pending@.len() == 0);
        assert(queued_views(started@) =~= Seq::empty());
        assert(queued_views(self.pending@) =~= Seq::empty());
        assert(running0 + all_launched(Seq::empty()) =~= running0);
        assert(pending0.skip(0) =~= pending0);
        while done < n
            invariant
                done <= n,
                n == pending0.len(),
                self.wf(),
                queued_views(waiting@) == pending0.skip(done as int),
                queued_views(started@) == advanced(running0, pending0.take(done as int)).0,
                queued_views(self.pending@) == advanced(running0, pending0.take(done as int)).1,
                running_views(self.running@) == running0 + all_launched(queued_views(started@)),
                forall|i: int|
                    0 <= i < self.pending@.len() ==> is_blocked(
                        running_views(self.running@),
                        drives(
                            (#[trigger] queued_views(self.pending@)[i]).sources,
                            queued_views(self.pending@)[i].dest,
                        ),
                    ),
            decreases n - done,
        {
            let ghost waiting0 = queued_views(waiting@);
            let ghost left0 = queued_views(self.pending@);
            let ghost started0 = queued_views(started@);
            let ghost run0 = running_views(self.running@);
            let ghost part = pending0.take(done + 1);
            assert(part.drop_last() =~= pending0.take(done as int));
            assert(waiting0.len() == waiting@.len());
            assert(waiting0.len() == n - done);
            let job = waiting.remove(0);
            assert(job@ == waiting0[0]);
            assert(part.last() == job@);
            assert(queued_views(waiting@) =~= waiting0.remove(0));
            assert(waiting0.remove(0) =~= pending0.skip(done + 1));
            let d = drives_of(&job.sources, &job.dest);
            if self.blocked(&d) {
                self.pending.push(job);
                assert(queued_views(self.pending@) =~= left0.push(job@));
            } else {
                self.launch(&job, d);
                started.push(job);
                assert(queued_views(started@) =~= started0.push(job@));
                assert(all_launched(started0.push(job@)) =~= all_launched(started0).push(
                    job@.launched(),
                ));
                assert(running_views(self.running@) =~= running0 + all_launched(
                    queued_views(started@),
                ));
                assert forall|i: int| 0 <= i < self.pending@.len() implies is_blocked(
                    running_views(self.running@),
                    drives(
                        (#[trigger] queued_views(self.pending@)[i]).sources,
                        queued_views(self.pending@)[i].dest,
                    ),
                ) by {
                    let q = queued_views(self.pending@)[i];
                    let k = choose|k: int|
                        0 <= k < run0.len() && !(#[trigger] run0[k]).drives.disjoint(
                            drives(q.sources, q.dest),
                        );
                    assert(running_views(self.running@)[k] == run0[k]);
                }
            }
            done = done + 1;
        }
        assert(pending0.take(n as int) =~= pending0);
        started
    }
}

/// Of every list, what is taken out and what is left over are together what it held.
pub proof fn settling_accounts_for_every_job<A>(list: Seq<A>, gone: Seq<bool>)
    requires
        gone.len() == list.len(),
    ensures
        taken_out(list, gone).to_multiset().add(left_over(list, gone).to_multiset())
            == list.to_multiset(),
    decreases list.len(),
{
    broadcast use vstd::seq_lib::group_to_multiset_ensures;

    if list.len() == 0 {
        assert(taken_out(list, gone).to_multiset().add(left_over(list, gone).to_multiset())
            =~= list.to_multiset());
    } else {
        let rest = list.drop_first();
        let out = taken_out(rest, gone.drop_first());
        let left = left_over(rest, gone.drop_first());
        settling_accounts_for_every_job(rest, gone.drop_first());
        let first = seq![list[0]];
        assert(first =~= Seq::empty().push(list[0]));
        vstd::seq_lib::lemma_multiset_commutative(first, rest);
        vstd::seq_lib::lemma_multiset_commutative(first, out);
        vstd::seq_lib::lemma_multiset_commutative(first, left);
        assert(list =~= first + rest);
        assert(taken_out(list, gone).to_multiset().add(left_over(list, gone).to_multiset())
            =~= list.to_multiset());
    }
}

/// Moving jobs on loses none and runs none twice: those that start and those
/// that go on waiting are together those that waited.
pub proof fn advancing_loses_nothing(running: Seq<RunningView>, pending: Seq<QueuedView>)
    ensures
        advanced(running, pending).0.to_multiset().add(advanced(running, pending).1.to_multiset())
            == pending.to_multiset(),
        advanced(running, pending).0.len() + advanced(running, pending).1.len() == pending.len(),
    decreases pending.len(),
{
    broadcast use vstd::seq_lib::group_to_multiset_ensures;

    let (started, left) = advanced(running, pending);
    if pending.len() == 0 {
        assert(started.to_multiset().add(left.to_multiset()) =~= pending.to_multiset());
    } else {
        advancing_loses_nothing(running, pending.drop_last());
        let (started0, left0) = advanced(running, pending.drop_last());
        let job = pending.last();
        assert(pending =~= pending.drop_last().push(job));
        assert(pending.to_multiset() =~= pending.drop_last().to_multiset().insert(job));
        assert(started.to_multiset().add(left.to_multiset()) =~= pending.to_multiset());
    }
}

/// Jobs that start together share no drive with each other or with those that
/// ran already.
pub proof fn jobs_started_together_stay_apart(
    running: Seq<RunningView>,
    pending: Seq<QueuedView>,
)
    requires
        is_apart(running),
    ensures
        is_apart(running + all_launched(advanced(running, pending).0)),
    decreases pending.len(),
{
    if pending.len() > 0 {
        jobs_started_together_stay_apart(running, pending.drop_last());
        let (started0, left0) = advanced(running, pending.drop_last());
        let job = pending.last();
        let run0 = running + all_launched(started0);
        if !is_blocked(run0, drives(job.sources, job.dest)) {
            let run1 = running + all_launched(started0.push(job));
            assert(run1 =~= run0.push(job.launched()));
            assert(is_apart(run0.push(job.launched())));
        }
    } else {
        assert(running + all_launched(Seq::empty()) =~= running);
    }
}

/// A path on a drive has its letter, as a capital, whether the drive is given by a capital or by
/// a small letter; what lies on no drive has none.
pub proof fn a_drive_has_a_capital_letter(p: PathView, b: u8)
    ensures
        0x41 <= b <= 0x5a && p.prefix == PrefixView::Disk(b) ==> drive_letter(p) == Some(b as char),
        0x61 <= b <= 0x7a && p.prefix == PrefixView::Disk(b) ==> drive_letter(p) == Some(
            (b - 0x20) as u8 as char,
        ),
        p.prefix is Bare || p.prefix is Unix || p.prefix is Other ==> drive_letter(p) is None,
{
}

/// Two jobs share a drive where a source or the destination of one lies on the drive of a source
/// or the destination of the other.
pub proof fn jobs_share_a_drive(a: QueuedView, b: QueuedView, p: PathView, q: PathView)
    requires
        a.sources.contains(p) || a.dest == p,
        b.sources.contains(q) || b.dest == q,
        drive_letter(p) is Some,
        drive_letter(p) == drive_letter(q),
    ensures
        is_blocked(seq![a.launched()], drives(b.sources, b.dest)),
{
    let c = drive_letter(p)->0;
    let running = seq![a.launched()];
    if a.sources.contains(p) {
        let i = a.sources.index_of(p);
        assert(drive_letter(a.sources[i]) == Some(c));
    }
    if b.sources.contains(q) {
        let i = b.sources.index_of(q);
        assert(drive_letter(b.sources[i]) == Some(c));
    }
    assert(running[0].drives.contains(c));
    assert(drives(b.sources, b.dest).contains(c));
}

/// Jobs that lie on no drive in common do not wait for each other.
pub proof fn jobs_on_other_drives_do_not_wait(a: QueuedView, b: QueuedView)
    requires
        forall|i: int, j: int|
            0 <= i <= a.sources.len() && 0 <= j <= b.sources.len() && drive_letter(
                a.sources.push(a.dest)[i],
            ) is Some ==> drive_letter(#[trigger] a.sources.push(a.dest)[i]) != drive_letter(
                #[trigger] b.sources.push(b.dest)[j],
            ),
    ensures
        !is_blocked(seq![a.launched()], drives(b.sources, b.dest)),
{
    let running = seq![a.launched()];
    let d = drives(b.sources, b.dest);
    let x = a.sources.push(a.dest);
    let y = b.sources.push(b.dest);
    assert forall|c: char| running[0].drives.contains(c) implies !d.contains(c) by {
        assert(drives(a.sources, a.dest).contains(c));
        let i = if drive_letter(a.dest) == Some(c) {
            a.sources.len() as int
        } else {
            choose|i: int|
                0 <= i < a.sources.len() && drive_letter(#[trigger] a.sources[i]) == Some(c)
        };
        assert(drive_letter(x[i]) == Some(c));
        if d.contains(c) {
            let j = if drive_letter(b.dest) == Some(c) {
                b.sources.len() as int
            } else {
                choose|j: int|
                    0 <= j < b.sources.len() && drive_letter(#[trigger] b.sources[j]) == Some(c)
            };
            assert(drive_letter(y[j]) == Some(c));
        }
    }
}

/// A job waits where it shares a drive with any one of those that run, and only there.
pub proof fn one_job_is_enough_to_wait_for(
    running: Seq<RunningView>,
    other: RunningView,
    d: Set<char>,
)
    ensures
        is_blocked(running.push(other), d) <==> is_blocked(running, d) || exists|c: char|
            other.drives.contains(c) && d.contains(c),
        !is_blocked(Seq::empty(), d),
{
    let all = running.push(other);
    if is_blocked(running, d) {
        let i = choose|i: int| 0 <= i < running.len() && !(#[trigger] running[i]).drives.disjoint(d);
        assert(all[i] == running[i]);
    }
    if exists|c: char| other.drives.contains(c) && d.contains(c) {
        assert(!all[running.len() as int].drives.disjoint(d));
    }
    if is_blocked(all, d) && !is_blocked(running, d) {
        let i = choose|i: int| 0 <= i < all.len() && !(#[trigger] all[i]).drives.disjoint(d);
        if i < running.len() {
            assert(!running[i].drives.disjoint(d));
        }
        assert(all[i] == other);
    }
}

/// No job waits without a reason: each that goes on waiting shares a drive with one that runs or
/// starts; and the oldest waits only for those that ran before.
pub proof fn nothing_waits_without_a_reason(running: Seq<RunningView>, pending: Seq<QueuedView>)
    ensures
        forall|i: int|
            0 <= i < advanced(running, pending).1.len() ==> is_blocked(
                running + all_launched(advanced(running, pending).0),
                drives(
                    (#[trigger] advanced(running, pending).1[i]).sources,
                    advanced(running, pending).1[i].dest,
                ),
            ),
        pending.len() > 0 && !is_blocked(running, drives(pending[0].sources, pending[0].dest))
            ==> advanced(running, pending).0.len() > 0 && advanced(running, pending).0[0]
            == pending[0],
        pending.len() > 0 && is_blocked(running, drives(pending[0].sources, pending[0].dest))
            ==> advanced(running, pending).1.len() > 0 && advanced(running, pending).1[0]
            == pending[0],
    decreases pending.len(),
{
    if pending.len() > 0 {
        let rest = pending.drop_last();
        nothing_waits_without_a_reason(running, rest);
        let (started0, left0) = advanced(running, rest);
        let (started, left) = advanced(running, pending);
        let run0 = running + all_launched(started0);
        let run1 = running + all_launched(started);
        assert forall|i: int| 0 <= i < left.len() implies is_blocked(
            run1,
            drives((#[trigger] left[i]).sources, left[i].dest),
        ) by {
            let d = drives(left[i].sources, left[i].dest);
            assert(is_blocked(run0, d)) by {
                if i < left0.len() {
                    assert(left[i] == left0[i]);
                }
            }
            let k = choose|k: int| 0 <= k < run0.len() && !(#[trigger] run0[k]).drives.disjoint(d);
            assert(run1[k] == run0[k]);
        }
        if rest.len() == 0 {
            assert(run0 =~= running);
        } else {
            assert(rest[0] == pending[0]);
        }
    }
}

/// A job that is not over stays, one that is leaves, and the rest keep their order.
pub proof fn what_is_marked_leaves<A>(first: A, list: Seq<A>, gone: bool, rest: Seq<bool>)
    requires
        list.len() == rest.len(),
    ensures
        left_over(seq![first] + list, seq![gone] + rest) == if gone {
            left_over(list, rest)
        } else {
            seq![first] + left_over(list, rest)
        },
        taken_out(seq![first] + list, seq![gone] + rest) == if gone {
            seq![first] + taken_out(list, rest)
        } else {
            taken_out(list, rest)
        },
{
    assert((seq![first] + list).drop_first() =~= list);
    assert((seq![gone] + rest).drop_first() =~= rest);
}

/// A job that runs keeps its number.
pub proof fn a_job_keeps_its_number(job: QueuedView, jobs: Seq<QueuedView>, i: int)
    ensures
        job.launched().id == job.id,
        0 <= i < jobs.len() ==> all_launched(jobs)[i].id == jobs[i].id && queued_ids(jobs)[i]
            == jobs[i].id && running_ids(all_launched(jobs))[i] == jobs[i].id,
        all_launched(jobs).len() == jobs.len(),
{
}

} // verus!
