//! Plain copies and moves, without a job: the steps that they take.
use crate::paths::{FsPath, PathView};
use vstd::prelude::*;

verus! {

/// What stands at a path.
pub enum Node {
    File,
    Folder(Vec<Named>),
}

/// An entry of a folder.
pub struct Named {
    pub name: String,
    pub node: Node,
}

/// A step of a copy or of a move.
pub enum Step {
    /// Make a folder and those above it, where they are missing.
    MakeFolder(FsPath),
    CopyFile { from: FsPath, to: FsPath },
    Rename { from: FsPath, to: FsPath },
}

/// The view of a `Step`.
pub enum StepView {
    MakeFolder(PathView),
    CopyFile { from: PathView, to: PathView },
    Rename { from: PathView, to: PathView },
}

impl View for Step {
    type V = StepView;

    open spec fn view(&self) -> StepView {
        match self {
            Step::MakeFolder(p) => StepView::MakeFolder(p@),
            Step::CopyFile { from, to } => StepView::CopyFile { from: from@, to: to@ },
            Step::Rename { from, to } => StepView::Rename { from: from@, to: to@ },
        }
    }
}

/// The views of a list of steps.
pub open spec fn step_views(v: Seq<Step>) -> Seq<StepView> {
    Seq::new(v.len(), |i: int| v[i]@)
}

/// What a step puts somewhere.
pub open spec fn written_by(s: StepView) -> PathView {
    match s {
        StepView::MakeFolder(p) => p,
        StepView::CopyFile { to, .. } => to,
        StepView::Rename { to, .. } => to,
    }
}

/// The steps that copy what stands at `from` to `to`.
pub open spec fn node_steps(node: Node, from: PathView, to: PathView) -> Seq<StepView>
    decreases node, 1nat,
{
    match node {
        Node::File => seq![StepView::CopyFile { from, to }],
        Node::Folder(inner) => seq![StepView::MakeFolder(to)] + entry_steps(inner@, from, to),
    }
}

/// The steps that copy the entries of the folder `from` into the folder `to`.
pub open spec fn entry_steps(entries: Seq<Named>, from: PathView, to: PathView) -> Seq<StepView>
    decreases entries, 0nat,
    via entry_steps_end
{
    if entries.len() == 0 {
        Seq::empty()
    } else {
        let last = entries.last();
        entry_steps(entries.drop_last(), from, to) + node_steps(
            last.node,
            from.join(last.name@),
            to.join(last.name@),
        )
    }
}

#[via_fn]
proof fn entry_steps_end(entries: Seq<Named>, from: PathView, to: PathView) {
    if entries.len() > 0 {
        let last = entries[entries.len() - 1];
        assert(decreases_to!(entries => entries[entries.len() - 1]));
        assert(decreases_to!(last => last.node));
        assert(entries.drop_last() =~= entries.subrange(0, entries.len() - 1));
        assert(decreases_to!(entries => entries.subrange(0, entries.len() - 1)));
    }
}

/// Adds the steps that copy the folder `from`, which holds `entries`, to `to`.
pub fn copy_dir_recursive(
    entries: &Vec<Named>,
    from: &FsPath,
    to: &FsPath,
    steps: &mut Vec<Step>,
)
    ensures
        step_views(final(steps)@) == step_views(old(steps)@) + (seq![StepView::MakeFolder(to@)]
            + entry_steps(entries@, from@, to@)),
    decreases entries,
{
    let ghost start = step_views(steps@);
    steps.push(Step::MakeFolder(to.copy()));
    let ghost head = start + seq![StepView::MakeFolder(to@)];
    assert(step_views(steps@) =~= head);
    assert(head + entry_steps(entries@.take(0), from@, to@) =~= head);
    for i in 0..entries.len()
        invariant
            step_views(steps@) == head + entry_steps(entries@.take(i as int), from@, to@),
    {
        let ghost before = step_views(steps@);
        let ghost part = entries@.take(i as int);
        assert(entries@.take(i + 1).drop_last() =~= part);
        assert(entries@.take(i + 1).last() == entries@[i as int]);
        let entry = &entries[i];
        let a = from.join(entry.name.as_str());
        let b = to.join(entry.name.as_str());
        match &entry.node {
            Node::File => {
                steps.push(Step::CopyFile { from: a, to: b });
                assert(step_views(steps@) =~= before + node_steps(
                    entries@[i as int].node,
                    from@.join(entries@[i as int].name@),
                    to@.join(entries@[i as int].name@),
                ));
            },
            Node::Folder(inner) => {
                assert(decreases_to!(entries@ => entries@[i as int]));
                assert(decreases_to!(entries@[i as int] => entries@[i as int].node));
                copy_dir_recursive(inner, &a, &b, steps);
            },
        }
        assert(step_views(steps@) =~= head + entry_steps(entries@.take(i + 1), from@, to@));
    }
    assert(entries@.take(entries@.len() as int) =~= entries@);
    assert(step_views(steps@) =~= start + (seq![StepView::MakeFolder(to@)] + entry_steps(
        entries@,
        from@,
        to@,
    )));
}

/// Every source has a name.
pub open spec fn all_named(sources: Seq<(FsPath, Node)>) -> bool {
    forall|i: int| 0 <= i < sources.len() ==> (#[trigger] sources[i]).0@.file_name() is Some
}

/// The steps that copy `sources` into the folder `dest`.
pub open spec fn copy_steps(sources: Seq<(FsPath, Node)>, dest: PathView) -> Seq<StepView>
    decreases sources.len(),
{
    if sources.len() == 0 {
        Seq::empty()
    } else {
        let (p, node) = sources.last();
        copy_steps(sources.drop_last(), dest) + node_steps(
            node,
            p@,
            dest.join(p@.file_name()->0),
        )
    }
}

/// The steps that copy `sources` into the folder `dest`, in the order in which they are taken.
pub fn copy_files(sources: &Vec<(FsPath, Node)>, dest: &FsPath) -> (r: Vec<Step>)
    requires
        all_named(sources@),
    ensures
        step_views(r@) == copy_steps(sources@, dest@),
{
    let mut steps: Vec<Step> = Vec::new();
    assert(step_views(steps@) =~= copy_steps(sources@.take(0), dest@));
    for i in 0..sources.len()
        invariant
            all_named(sources@),
            step_views(steps@) == copy_steps(sources@.take(i as int), dest@),
    {
        let ghost before = step_views(steps@);
        assert(sources@.take(i + 1).drop_last() =~= sources@.take(i as int));
        assert(sources@.take(i + 1).last() == sources@[i as int]);
        assert(sources@[i as int].0@.file_name() is Some);
        if let Some(name) = sources[i].0.file_name() {
            let to = dest.join(name.as_str());
            match &sources[i].1 {
                Node::File => {
                    steps.push(Step::CopyFile { from: sources[i].0.copy(), to });
                    assert(step_views(steps@) =~= before + node_steps(
                        sources@[i as int].1,
                        sources@[i as int].0@,
                        dest@.join(name@),
                    ));
                },
                Node::Folder(inner) => {
                    copy_dir_recursive(inner, &sources[i].0, &to, &mut steps);
                },
            }
        }
    }
    assert(sources@.take(sources@.len() as int) =~= sources@);
    steps
}

/// The steps that move `sources` into the folder `dest`.
pub open spec fn move_steps(sources: Seq<FsPath>, dest: PathView) -> Seq<StepView> {
    Seq::new(
        sources.len(),
        |i: int|
            StepView::Rename { from: sources[i]@, to: dest.join(sources[i]@.file_name()->0) },
    )
}

/// The steps that move `sources` into the folder `dest`.
pub fn move_files(sources: &Vec<FsPath>, dest: &FsPath) -> (r: Vec<Step>)
    requires
        forall|i: int| 0 <= i < sources@.len() ==> (#[trigger] sources@[i])@.file_name() is Some,
    ensures
        step_views(r@) == move_steps(sources@, dest@),
{
    let mut steps: Vec<Step> = Vec::new();
    for i in 0..sources.len()
        invariant
            forall|k: int|
                0 <= k < sources@.len() ==> (#[trigger] sources@[k])@.file_name() is Some,
            step_views(steps@) == move_steps(sources@, dest@).take(i as int),
    {
        let ghost before = step_views(steps@);
        assert(sources@[i as int]@.file_name() is Some);
        if let Some(name) = sources[i].file_name() {
            steps.push(Step::Rename { from: sources[i].copy(), to: dest.join(name.as_str()) });
            assert(step_views(steps@) =~= before.push(move_steps(sources@, dest@)[i as int]));
            assert(step_views(steps@) =~= move_steps(sources@, dest@).take(i + 1));
        }
    }
    assert(move_steps(sources@, dest@).take(sources@.len() as int) =~= move_steps(
        sources@,
        dest@,
    ));
    steps
}

/// A copy writes nothing outside the folder that it goes to.
pub proof fn copies_stay_below(sources: Seq<(FsPath, Node)>, dest: PathView, i: int)
    requires
        0 <= i < copy_steps(sources, dest).len(),
    ensures
        written_by(copy_steps(sources, dest)[i]).starts_with(dest),
    decreases sources.len(),
{
    if sources.len() > 0 {
        let front = copy_steps(sources.drop_last(), dest);
        if i < front.len() {
            copies_stay_below(sources.drop_last(), dest, i);
        } else {
            let (p, node) = sources.last();
            let to = dest.join(p@.file_name()->0);
            let rest = node_steps(node, p@, to);
            assert(rest[i - front.len()] == copy_steps(sources, dest)[i]);
            node_stays_below(node, p@, to, i - front.len());
            crate::paths::entry_lies_in_directory(dest, p@.file_name()->0);
            crate::paths::starts_with_is_transitive(
                written_by(rest[i - front.len()]),
                to,
                dest,
            );
        }
    }
}

proof fn node_stays_below(node: Node, from: PathView, to: PathView, i: int)
    requires
        0 <= i < node_steps(node, from, to).len(),
    ensures
        written_by(node_steps(node, from, to)[i]).starts_with(to),
    decreases node, 1nat,
{
    assert(to.names.take(to.names.len() as int) =~= to.names);
    match node {
        Node::File => {},
        Node::Folder(inner) => {
            if i > 0 {
                entries_stay_below(inner@, from, to, i - 1);
                assert(node_steps(node, from, to)[i] == entry_steps(inner@, from, to)[i - 1]);
            }
        },
    }
}

proof fn entries_stay_below(entries: Seq<Named>, from: PathView, to: PathView, i: int)
    requires
        0 <= i < entry_steps(entries, from, to).len(),
    ensures
        written_by(entry_steps(entries, from, to)[i]).starts_with(to),
    decreases entries, 0nat,
{
    if entries.len() > 0 {
        let front = entry_steps(entries.drop_last(), from, to);
        let last = entries[entries.len() - 1];
        assert(entries.drop_last() =~= entries.subrange(0, entries.len() - 1));
        assert(decreases_to!(entries => entries.subrange(0, entries.len() - 1)));
        assert(decreases_to!(entries => entries[entries.len() - 1]));
        assert(decreases_to!(last => last.node));
        if i < front.len() {
            entries_stay_below(entries.drop_last(), from, to, i);
        } else {
            let below = to.join(last.name@);
            let rest = node_steps(last.node, from.join(last.name@), below);
            assert(rest[i - front.len()] == entry_steps(entries, from, to)[i]);
            node_stays_below(last.node, from.join(last.name@), below, i - front.len());
            crate::paths::entry_lies_in_directory(to, last.name@);
            crate::paths::starts_with_is_transitive(
                written_by(rest[i - front.len()]),
                below,
                to,
            );
        }
    }
}

/// What a step does to one file lies at the same place below the source as below the target.
pub open spec fn keeps_its_place(s: StepView, from: PathView, to: PathView) -> bool {
    match s {
        StepView::MakeFolder(p) => exists|rest: Seq<Seq<char>>|
            p.names == #[trigger] (to.names + rest),
        StepView::CopyFile { from: f, to: t } => exists|rest: Seq<Seq<char>>|
            t.names == #[trigger] (to.names + rest) && f.names == from.names + rest,
        StepView::Rename { .. } => false,
    }
}

/// A copy keeps the place of everything: each file goes to the same names below the target that it
/// has below the source, and the folder itself is made first.
pub proof fn copies_keep_their_place(node: Node, from: PathView, to: PathView, i: int)
    requires
        0 <= i < node_steps(node, from, to).len(),
    ensures
        keeps_its_place(node_steps(node, from, to)[i], from, to),
        node is Folder ==> node_steps(node, from, to)[0] == StepView::MakeFolder(to),
        node is File ==> node_steps(node, from, to) == seq![StepView::CopyFile { from, to }],
    decreases node, 1nat,
{
    let none = Seq::<Seq<char>>::empty();
    assert(to.names =~= to.names + none);
    assert(from.names =~= from.names + none);
    match node {
        Node::File => {},
        Node::Folder(inner) => {
            if i > 0 {
                entries_keep_their_place(inner@, from, to, i - 1);
                assert(node_steps(node, from, to)[i] == entry_steps(inner@, from, to)[i - 1]);
            }
        },
    }
}

proof fn entries_keep_their_place(entries: Seq<Named>, from: PathView, to: PathView, i: int)
    requires
        0 <= i < entry_steps(entries, from, to).len(),
    ensures
        keeps_its_place(entry_steps(entries, from, to)[i], from, to),
    decreases entries, 0nat,
{
    if entries.len() > 0 {
        let front = entry_steps(entries.drop_last(), from, to);
        let last = entries[entries.len() - 1];
        assert(entries.drop_last() =~= entries.subrange(0, entries.len() - 1));
        assert(decreases_to!(entries => entries.subrange(0, entries.len() - 1)));
        assert(decreases_to!(entries => entries[entries.len() - 1]));
        assert(decreases_to!(last => last.node));
        if i < front.len() {
            entries_keep_their_place(entries.drop_last(), from, to, i);
        } else {
            let f = from.join(last.name@);
            let t = to.join(last.name@);
            let k = i - front.len();
            let s = node_steps(last.node, f, t)[k];
            assert(s == entry_steps(entries, from, to)[i]);
            copies_keep_their_place(last.node, f, t, k);
            match s {
                StepView::MakeFolder(p) => {
                    let rest = choose|rest: Seq<Seq<char>>|
                        p.names == #[trigger] (t.names + rest);
                    assert(p.names =~= to.names + (seq![last.name@] + rest));
                },
                StepView::CopyFile { from: a, to: b } => {
                    let rest = choose|rest: Seq<Seq<char>>|
                        b.names == #[trigger] (t.names + rest) && a.names == f.names + rest;
                    assert(b.names =~= to.names + (seq![last.name@] + rest));
                    assert(a.names =~= from.names + (seq![last.name@] + rest));
                },
                StepView::Rename { .. } => {},
            }
        }
    }
}

/// The number of files below a node.
pub open spec fn file_count(node: Node) -> nat
    decreases node, 1nat,
{
    match node {
        Node::File => 1,
        Node::Folder(inner) => file_count_in(inner@),
    }
}

/// The number of files in a list of entries.
pub open spec fn file_count_in(entries: Seq<Named>) -> nat
    decreases entries, 0nat,
    via file_count_ends
{
    if entries.len() == 0 {
        0
    } else {
        file_count_in(entries.drop_last()) + file_count(entries.last().node)
    }
}

#[via_fn]
proof fn file_count_ends(entries: Seq<Named>) {
    if entries.len() > 0 {
        let last = entries[entries.len() - 1];
        assert(decreases_to!(entries => entries[entries.len() - 1]));
        assert(decreases_to!(last => last.node));
        assert(entries.drop_last() =~= entries.subrange(0, entries.len() - 1));
        assert(decreases_to!(entries => entries.subrange(0, entries.len() - 1)));
    }
}

/// How many of the steps copy a file.
pub open spec fn copied_files(steps: Seq<StepView>) -> nat
    decreases steps.len(),
{
    if steps.len() == 0 {
        0
    } else {
        copied_files(steps.drop_last()) + (if steps.last() is CopyFile {
            1nat
        } else {
            0nat
        })
    }
}

proof fn copied_files_add_up(a: Seq<StepView>, b: Seq<StepView>)
    ensures
        copied_files(a + b) == copied_files(a) + copied_files(b),
    decreases b.len(),
{
    if b.len() == 0 {
        assert(a + b =~= a);
    } else {
        copied_files_add_up(a, b.drop_last());
        assert((a + b).drop_last() =~= a + b.drop_last());
        assert((a + b).last() == b.last());
    }
}

/// A copy copies every file once.
pub proof fn every_file_is_copied_once(node: Node, from: PathView, to: PathView)
    ensures
        copied_files(node_steps(node, from, to)) == file_count(node),
    decreases node, 1nat,
{
    reveal_with_fuel(copied_files, 2);
    match node {
        Node::File => {
            let s = seq![StepView::CopyFile { from, to }];
            assert(s.drop_last() =~= Seq::empty());
            assert(copied_files(s) == 1);
        },
        Node::Folder(inner) => {
            let head = seq![StepView::MakeFolder(to)];
            assert(head.drop_last() =~= Seq::empty());
            assert(copied_files(head) == 0);
            copied_files_add_up(head, entry_steps(inner@, from, to));
            every_entry_is_copied_once(inner@, from, to);
        },
    }
}

proof fn every_entry_is_copied_once(entries: Seq<Named>, from: PathView, to: PathView)
    ensures
        copied_files(entry_steps(entries, from, to)) == file_count_in(entries),
    decreases entries, 0nat,
{
    if entries.len() > 0 {
        let last = entries[entries.len() - 1];
        assert(decreases_to!(entries => entries[entries.len() - 1]));
        assert(decreases_to!(last => last.node));
        assert(entries.drop_last() =~= entries.subrange(0, entries.len() - 1));
        assert(decreases_to!(entries => entries.subrange(0, entries.len() - 1)));
        every_entry_is_copied_once(entries.drop_last(), from, to);
        let f = from.join(last.name@);
        let t = to.join(last.name@);
        every_file_is_copied_once(last.node, f, t);
        copied_files_add_up(
            entry_steps(entries.drop_last(), from, to),
            node_steps(last.node, f, t),
        );
    }
}

/// Each source goes to the entry of its name in the destination, after those before it: a copy by
/// copying all it holds, a move by renaming.
pub proof fn sources_go_to_their_names(
    sources: Seq<(FsPath, Node)>,
    s: (FsPath, Node),
    moved: Seq<FsPath>,
    dest: PathView,
    i: int,
)
    requires
        s.0@.names.len() > 0,
        s.0@.names.last() != seq!['.'],
        s.0@.names.last() != seq!['.', '.'],
    ensures
        exists|to: PathView|
            to.names == dest.names.push(s.0@.names.last()) && to.prefix == dest.prefix && to.rooted
                == dest.rooted && copy_steps(sources.push(s), dest) == copy_steps(sources, dest)
                + #[trigger] node_steps(s.1, s.0@, to),
        move_steps(moved, dest).len() == moved.len(),
        0 <= i < moved.len() && moved[i]@.names.len() > 0 && moved[i]@.names.last() != seq!['.']
            && moved[i]@.names.last() != seq!['.', '.'] ==> (move_steps(moved, dest)[i]
            matches StepView::Rename { from, to } && from == moved[i]@ && to.names
            == dest.names.push(moved[i]@.names.last()) && to.prefix == dest.prefix && to.rooted
            == dest.rooted),
{
    assert(sources.push(s).drop_last() =~= sources);
    let to = dest.join(s.0@.names.last());
    assert(copy_steps(sources.push(s), dest) == copy_steps(sources, dest) + node_steps(
        s.1,
        s.0@,
        to,
    ));
}

} // verus!
