//! The selected rows of a listing.
use crate::listing::{names_parent, is_parent_row};
use crate::names::NameSet;
use crate::paths::{path_views, FsPath, PathView};
use crate::text::{copy_text, text_eq, texts};
use crate::types::{entry_views, EntryView, FileEntry};
use vstd::prelude::*;

verus! {

/// The names of the selected rows, and the row that the next range starts from.
pub struct Selection {
    pub names: NameSet,
    pub anchor: Option<String>,
}

/// The view of a `Selection`.
#[verifier::ext_equal]
pub struct SelectionView {
    pub names: Set<Seq<char>>,
    pub anchor: Option<Seq<char>>,
}

impl View for Selection {
    type V = SelectionView;

    open spec fn view(&self) -> SelectionView {
        SelectionView {
            names: self.names@,
            anchor: match self.anchor {
                Some(a) => Some(a@),
                None => None,
            },
        }
    }
}

/// The position of the first row called `name`; the number of rows where none is.
pub open spec fn row_of(rows: Seq<EntryView>, name: Seq<char>) -> int
    decreases rows.len(),
{
    if rows.len() == 0 {
        0
    } else if rows[0].name == name {
        0
    } else {
        1 + row_of(rows.skip(1), name)
    }
}

/// What the position of a name says of the rows.
pub proof fn row_of_holds(rows: Seq<EntryView>, name: Seq<char>)
    ensures
        0 <= row_of(rows, name) <= rows.len(),
        row_of(rows, name) < rows.len() ==> rows[row_of(rows, name)].name == name,
        forall|k: int| 0 <= k < row_of(rows, name) ==> (#[trigger] rows[k]).name != name,
    decreases rows.len(),
{
    if rows.len() > 0 && rows[0].name != name {
        row_of_holds(rows.skip(1), name);
        assert forall|k: int| 0 <= k < row_of(rows, name) implies (#[trigger] rows[k]).name
            != name by {
            if k > 0 {
                assert(rows.skip(1)[k - 1] == rows[k]);
            }
        }
    }
}

/// A position that holds the name, with none before it, is the position of the name.
proof fn row_of_is(rows: Seq<EntryView>, name: Seq<char>, i: int)
    requires
        0 <= i <= rows.len(),
        i < rows.len() ==> rows[i].name == name,
        forall|k: int| 0 <= k < i ==> (#[trigger] rows[k]).name != name,
    ensures
        row_of(rows, name) == i,
{
    row_of_holds(rows, name);
    let j = row_of(rows, name);
    if i < j {
        assert(rows[i].name != name);
    }
    if j < i {
        assert(rows[j].name != name);
    }
}

/// The position of the first row called `name`.
pub fn find_row(rows: &Vec<FileEntry>, name: &str) -> (r: usize)
    ensures
        r == row_of(entry_views(rows@), name@),
        r <= rows@.len(),
{
    for i in 0..rows.len()
        invariant
            forall|k: int| 0 <= k < i ==> (#[trigger] entry_views(rows@)[k]).name != name@,
    {
        if text_eq(rows[i].name.as_str(), name) {
            proof {
                assert(entry_views(rows@)[i as int].name == name@);
                row_of_is(entry_views(rows@), name@, i as int);
            }
            return i;
        }
    }
    proof {
        row_of_is(entry_views(rows@), name@, rows@.len() as int);
    }
    rows.len()
}

/// The names of the rows from position `lo` to position `hi`, but for the way up.
pub open spec fn names_between(rows: Seq<EntryView>, lo: int, hi: int) -> Set<Seq<char>> {
    Set::new(
        |n: Seq<char>|
            !is_parent_row(n) && exists|k: int|
                lo <= k <= hi && 0 <= k < rows.len() && (#[trigger] rows[k]).name == n,
    )
}

/// Puts the names of the rows from `lo` to `hi` into `names`, but for the way up.
fn insert_between(names: &mut NameSet, rows: &Vec<FileEntry>, lo: usize, hi: usize)
    requires
        old(names).wf(),
        lo <= hi < rows@.len(),
    ensures
        final(names).wf(),
        final(names)@ == old(names)@.union(
            names_between(entry_views(rows@), lo as int, hi as int),
        ),
{
    let ghost views = entry_views(rows@);
    let mut i: usize = lo;
    let n: usize = rows.len();
    assert(hi < n);
    let end: usize = hi + 1;
    assert(old(names)@.union(names_between(views, lo as int, lo - 1)) =~= old(names)@);
    while i < end
        invariant
            lo <= i <= end,
            end == hi + 1,
            hi < rows@.len(),
            views == entry_views(rows@),
            names.wf(),
            names@ == old(names)@.union(names_between(views, lo as int, i - 1)),
        decreases end - i,
    {
        let ghost before = names@;
        let row = &rows[i];
        if !names_parent(row.name.as_str()) {
            names.insert(row.name.as_str());
        }
        assert(views[i as int].name == row.name@);
        assert(names@ =~= old(names)@.union(names_between(views, lo as int, i as int))) by {
            assert forall|n: Seq<char>|
                names_between(views, lo as int, i as int).contains(n) implies names@.contains(n) by {
                let k = choose|k: int|
                    lo <= k <= i && 0 <= k < views.len() && (#[trigger] views[k]).name == n;
                if k < i {
                    assert(names_between(views, lo as int, i - 1).contains(n));
                }
            }
            assert forall|n: Seq<char>| names@.contains(n) implies old(names)@.contains(n)
                || names_between(views, lo as int, i as int).contains(n) by {
                if before.contains(n) && !old(names)@.contains(n) {
                    let k = choose|k: int|
                        lo <= k <= i - 1 && 0 <= k < views.len() && (#[trigger] views[k]).name == n;
                    assert(views[k].name == n);
                }
            }
        }
        i += 1;
    }
}

impl SelectionView {
    /// The selection of one row, which the next range starts from.
    pub open spec fn only(name: Seq<char>) -> SelectionView {
        SelectionView { names: set![name], anchor: Some(name) }
    }

    /// The selection with the row `name` put in or taken out.
    pub open spec fn with_toggled(self, name: Seq<char>) -> Set<Seq<char>> {
        if self.names.contains(name) {
            self.names.remove(name)
        } else {
            self.names.insert(name)
        }
    }

    /// The selection after a click on the row `name` of the list. With the shift key a range is
    /// selected, from the row of the last click without it; with the control key as well, the
    /// range is added. With the control key alone the row is put in or taken out.
    pub open spec fn clicked(
        self,
        rows: Seq<EntryView>,
        name: Seq<char>,
        ctrl: bool,
        shift: bool,
    ) -> SelectionView {
        if shift {
            match self.anchor {
                Some(anchor) => {
                    let a = row_of(rows, anchor);
                    let b = row_of(rows, name);
                    if a < rows.len() && b < rows.len() {
                        let range = if a <= b {
                            names_between(rows, a, b)
                        } else {
                            names_between(rows, b, a)
                        };
                        SelectionView {
                            names: if ctrl {
                                self.names.union(range)
                            } else {
                                range
                            },
                            anchor: self.anchor,
                        }
                    } else {
                        self
                    }
                },
                None => SelectionView::only(name),
            }
        } else if ctrl {
            SelectionView { names: self.with_toggled(name), anchor: Some(name) }
        } else {
            SelectionView::only(name)
        }
    }

    /// The selection after a click on the cell `name` of the thumbnail grid. The control key
    /// goes before the shift key and leaves the start of the range; a range starts the next one
    /// at its end.
    pub open spec fn cell_clicked(
        self,
        cells: Seq<EntryView>,
        name: Seq<char>,
        ctrl: bool,
        shift: bool,
    ) -> SelectionView {
        if ctrl {
            SelectionView { names: self.with_toggled(name), anchor: self.anchor }
        } else if shift {
            match self.anchor {
                Some(anchor) => {
                    let a = row_of(cells, anchor);
                    let b = row_of(cells, name);
                    SelectionView {
                        names: if a < cells.len() && b < cells.len() {
                            if a <= b {
                                names_between(cells, a, b)
                            } else {
                                names_between(cells, b, a)
                            }
                        } else {
                            self.names
                        },
                        anchor: Some(name),
                    }
                },
                None => SelectionView::only(name),
            }
        } else {
            SelectionView::only(name)
        }
    }
}

impl Selection {
    /// No name is held twice.
    pub open spec fn wf(&self) -> bool {
        self.names.wf()
    }

    /// Nothing selected.
    pub fn new() -> (r: Selection)
        ensures
            r.wf(),
            r@ == (SelectionView { names: Set::empty(), anchor: None }),
    {
        Selection { names: NameSet::new(), anchor: None }
    }

    /// Selects the row `name` alone.
    fn select_only(&mut self, name: &str)
        ensures
            final(self).wf(),
            final(self)@ == SelectionView::only(name@),
    {
        self.names = NameSet::of(name);
        self.anchor = Some(copy_text(name));
    }

    /// Puts the row `name` in, or takes it out.
    fn toggle(&mut self, name: &str)
        requires
            old(self).wf(),
        ensures
            final(self).wf(),
            final(self)@ == (SelectionView { names: old(self)@.with_toggled(name@), ..old(self)@ }),
    {
        if self.names.contains(name) {
            self.names.remove(name);
        } else {
            self.names.insert(name);
        }
    }

    /// Handles a click on the row `name` of the list.
    pub fn click(&mut self, rows: &Vec<FileEntry>, name: &str, ctrl: bool, shift: bool)
        requires
            old(self).wf(),
        ensures
            final(self).wf(),
            final(self)@ == old(self)@.clicked(entry_views(rows@), name@, ctrl, shift),
    {
        if shift {
            let from: Option<usize> = match &self.anchor {
                Some(anchor) => Some(find_row(rows, anchor.as_str())),
                None => None,
            };
            match from {
                Some(a) => {
                    let b: usize = find_row(rows, name);
                    if a < rows.len() && b < rows.len() {
                        if !ctrl {
                            self.names.clear();
                        }
                        let (lo, hi): (usize, usize) = if a <= b {
                            (a, b)
                        } else {
                            (b, a)
                        };
                        insert_between(&mut self.names, rows, lo, hi);
                        assert(self@.names =~= old(self)@.clicked(
                            entry_views(rows@),
                            name@,
                            ctrl,
                            shift,
                        ).names);
                    }
                },
                None => {
                    self.select_only(name);
                },
            }
        } else if ctrl {
            self.toggle(name);
            self.anchor = Some(copy_text(name));
        } else {
            self.select_only(name);
        }
    }

    /// Handles a click on the cell `name` of the thumbnail grid.
    pub fn click_cell(&mut self, cells: &Vec<FileEntry>, name: &str, ctrl: bool, shift: bool)
        requires
            old(self).wf(),
        ensures
            final(self).wf(),
            final(self)@ == old(self)@.cell_clicked(entry_views(cells@), name@, ctrl, shift),
    {
        if ctrl {
            self.toggle(name);
        } else if shift {
            let from: Option<usize> = match &self.anchor {
                Some(anchor) => Some(find_row(cells, anchor.as_str())),
                None => None,
            };
            match from {
                Some(a) => {
                    let b: usize = find_row(cells, name);
                    if a < cells.len() && b < cells.len() {
                        self.names.clear();
                        let (lo, hi): (usize, usize) = if a <= b {
                            (a, b)
                        } else {
                            (b, a)
                        };
                        insert_between(&mut self.names, cells, lo, hi);
                        assert(self@.names =~= old(self)@.cell_clicked(
                            entry_views(cells@),
                            name@,
                            ctrl,
                            shift,
                        ).names);
                    }
                    self.anchor = Some(copy_text(name));
                },
                None => {
                    self.select_only(name);
                },
            }
        } else {
            self.select_only(name);
        }
    }

    /// Selects every row but the way up.
    pub fn select_all(&mut self, rows: &Vec<FileEntry>)
        ensures
            final(self).wf(),
            final(self)@ == (SelectionView {
                names: names_between(entry_views(rows@), 0, rows@.len() - 1),
                ..old(self)@
            }),
    {
        self.names.clear();
        if rows.len() > 0 {
            insert_between(&mut self.names, rows, 0, rows.len() - 1);
        }
        assert(self@.names =~= names_between(entry_views(rows@), 0, rows@.len() - 1));
    }

    /// Selects the row `name` alone where it is not selected, before a menu opens on it. The
    /// start of the range stays.
    pub fn right_click(&mut self, name: &str)
        requires
            old(self).wf(),
        ensures
            final(self).wf(),
            final(self)@ == (SelectionView {
                names: if old(self)@.names.contains(name@) {
                    old(self)@.names
                } else {
                    set![name@]
                },
                ..old(self)@
            }),
    {
        if !self.names.contains(name) {
            self.names = NameSet::of(name);
        }
    }

    /// Selects what a rectangle touches: the rows `touched`, but for the way up, and with the
    /// control key what was selected `before` it was drawn.
    pub fn band(&mut self, before: &NameSet, ctrl: bool, touched: &Vec<String>)
        requires
            before.wf(),
        ensures
            final(self).wf(),
            final(self)@ == (SelectionView {
                names: banded(before@, ctrl, texts(touched@)),
                ..old(self)@
            }),
    {
        let mut names = NameSet::new();
        if ctrl {
            let n: usize = before.len();
            for i in 0..n
                invariant
                    n == before.order().len(),
                    before.wf(),
                    names.wf(),
                    names@ == before.order().take(i as int).to_set(),
            {
                names.insert(before.name_at(i).as_str());
                assert(before.order().take(i + 1) =~= before.order().take(i as int).push(
                    before.order()[i as int],
                ));
                assert(names@ =~= before.order().take(i + 1).to_set()) by {
                    pushed_to_set(before.order().take(i as int), before.order()[i as int]);
                }
            }
            proof {
                before.order_lists_names();
                assert(before.order().take(n as int) =~= before.order());
            }
        }
        let ghost base = names@;
        assert(base == if ctrl {
            before@
        } else {
            Set::empty()
        });
        let ghost all = texts(touched@);
        for i in 0..touched.len()
            invariant
                all == texts(touched@),
                names.wf(),
                names@ == banded(base, true, all.take(i as int)),
        {
            let ghost so_far = names@;
            let name = &touched[i];
            if !names_parent(name.as_str()) {
                names.insert(name.as_str());
            }
            assert(all[i as int] == name@);
            assert(all.take(i + 1) =~= all.take(i as int).push(name@));
            assert(names@ =~= banded(base, true, all.take(i + 1))) by {
                assert forall|n: Seq<char>|
                    all.take(i + 1).contains(n) <==> all.take(i as int).contains(n) || n
                        == name@ by {
                    if all.take(i as int).contains(n) {
                        let k = all.take(i as int).index_of(n);
                        assert(all.take(i + 1)[k] == n);
                    }
                    assert(all.take(i + 1)[i as int] == name@);
                    if all.take(i + 1).contains(n) {
                        let k = all.take(i + 1).index_of(n);
                        if k < i {
                            assert(all.take(i as int)[k] == n);
                        }
                    }
                }
            }
        }
        assert(all.take(all.len() as int) =~= all);
        assert(names@ =~= banded(before@, ctrl, all));
        self.names = names;
    }

    /// Selects what a job has put into the listing, where it has put in anything.
    pub fn select_pasted(&mut self, pasted: &Vec<String>)
        requires
            old(self).wf(),
        ensures
            final(self).wf(),
            final(self)@ == (SelectionView {
                names: if pasted@.len() == 0 {
                    old(self)@.names
                } else {
                    texts(pasted@).to_set()
                },
                ..old(self)@
            }),
    {
        if pasted.len() > 0 {
            self.names.clear();
            for i in 0..pasted.len()
                invariant
                    self.wf(),
                    self@.anchor == old(self)@.anchor,
                    self@.names == texts(pasted@).take(i as int).to_set(),
            {
                self.names.insert(pasted[i].as_str());
                assert(texts(pasted@).take(i + 1) =~= texts(pasted@).take(i as int).push(
                    pasted@[i as int]@,
                ));
                proof {
                    pushed_to_set(texts(pasted@).take(i as int), pasted@[i as int]@);
                }
            }
            assert(texts(pasted@).take(pasted@.len() as int) =~= texts(pasted@));
        }
    }

    /// Selects nothing; the start of the range stays.
    pub fn clear(&mut self)
        ensures
            final(self).wf(),
            final(self)@ == (SelectionView { names: Set::empty(), ..old(self)@ }),
    {
        self.names.clear();
    }

    /// Where the selected rows stand, for a listing of the directory `dir`.
    pub fn paths_in(&self, dir: &FsPath) -> (r: Vec<FsPath>)
        requires
            self.wf(),
        ensures
            path_views(r@) == paths_of(dir@, self.names.order()),
            path_views(r@).no_duplicates(),
            path_views(r@).to_set() == self@.names.map(|n: Seq<char>| dir@.join(n)),
    {
        let n: usize = self.names.len();
        let mut r: Vec<FsPath> = Vec::new();
        for i in 0..n
            invariant
                n == self.names.order().len(),
                self.wf(),
                path_views(r@) == paths_of(dir@, self.names.order()).take(i as int),
        {
            let ghost before = path_views(r@);
            r.push(dir.join(self.names.name_at(i).as_str()));
            assert(path_views(r@) =~= before.push(dir@.join(self.names.order()[i as int])));
            assert(path_views(r@) =~= paths_of(dir@, self.names.order()).take(i + 1));
        }
        proof {
            let order = self.names.order();
            self.names.order_lists_names();
            assert(paths_of(dir@, order).take(n as int) =~= paths_of(dir@, order));
            paths_of_names(dir@, order);
        }
        r
    }
}

/// The entries of `dir` with the given names.
pub open spec fn paths_of(dir: PathView, names: Seq<Seq<char>>) -> Seq<PathView> {
    names.map_values(|n: Seq<char>| dir.join(n))
}

/// Different names of one directory lead to different paths.
proof fn paths_of_names(dir: PathView, names: Seq<Seq<char>>)
    requires
        names.no_duplicates(),
    ensures
        paths_of(dir, names).no_duplicates(),
        paths_of(dir, names).to_set() == names.to_set().map(|n: Seq<char>| dir.join(n)),
{
    let f = |n: Seq<char>| dir.join(n);
    let all = paths_of(dir, names);
    assert forall|i: int, j: int| 0 <= i < all.len() && 0 <= j < all.len() && i
        != j implies all[i] != all[j] by {
        assert(all[i].names.last() == names[i]);
        assert(all[j].names.last() == names[j]);
    }
    assert forall|p: PathView| #[trigger] all.to_set().contains(p) <==> names.to_set().map(
        f,
    ).contains(p) by {
        if all.contains(p) {
            let k = all.index_of(p);
            assert(names.to_set().contains(names[k]));
            assert(f(names[k]) == p);
        }
        if names.to_set().map(f).contains(p) {
            let n = choose|n: Seq<char>| names.to_set().contains(n) && #[trigger] f(n) == p;
            let k = names.index_of(n);
            assert(all[k] == p);
        }
    }
    assert(all.to_set() =~= names.to_set().map(f));
}

/// One name more in a list is one name more in its set.
proof fn pushed_to_set(list: Seq<Seq<char>>, name: Seq<char>)
    ensures
        list.push(name).to_set() == list.to_set().insert(name),
{
    assert forall|n: Seq<char>| #[trigger] list.push(name).contains(n) <==> list.contains(n) || n
        == name by {
        if list.contains(n) {
            assert(list.push(name)[list.index_of(n)] == n);
        }
        assert(list.push(name)[list.len() as int] == name);
        if list.push(name).contains(n) {
            let k = list.push(name).index_of(n);
            if k < list.len() {
                assert(list[k] == n);
            }
        }
    }
    assert(list.push(name).to_set() =~= list.to_set().insert(name));
}

/// What a rectangle selects.
pub open spec fn banded(before: Set<Seq<char>>, ctrl: bool, touched: Seq<Seq<char>>) -> Set<
    Seq<char>,
> {
    (if ctrl {
        before
    } else {
        Set::empty()
    }).union(Set::new(|n: Seq<char>| touched.contains(n) && !is_parent_row(n)))
}

// ---------------------------------------------------------------------------
// Rectangles
// ---------------------------------------------------------------------------

/// What becomes of a rectangle that selects, in one frame.
#[derive(Clone, Copy, PartialEq, Eq, Structural)]
pub struct BandStep {
    pub start: bool,
    pub extend: bool,
    pub end: bool,
}

/// A rectangle starts with a press where nothing else is in the way, follows the pointer while
/// the button is held, and ends once it is let go.
pub fn band_step(banding: bool, pressed: bool, held: bool, barred: bool) -> (r: BandStep)
    ensures
        r.start == (pressed && !barred),
        r.extend == ((banding || r.start) && held),
        r.end == ((banding || r.start) && !held),
{
    let start = pressed && !barred;
    let open = banding || start;
    BandStep { start, extend: open && held, end: open && !held }
}

// ---------------------------------------------------------------------------
// Laws
// ---------------------------------------------------------------------------

/// Two clicks with the control key on one row leave the selected rows as they were.
pub proof fn toggling_twice_changes_nothing(
    s: SelectionView,
    rows: Seq<EntryView>,
    name: Seq<char>,
)
    ensures
        s.clicked(rows, name, true, false).clicked(rows, name, true, false).names == s.names,
        s.cell_clicked(rows, name, true, false).cell_clicked(rows, name, true, false) == s,
{
    assert(s.clicked(rows, name, true, false).clicked(rows, name, true, false).names =~= s.names);
}

/// A range goes from its start to the clicked row, whichever stands first: both ends are
/// selected, and everything between them, but for the way up.
pub proof fn a_range_reaches_both_ends(
    s: SelectionView,
    rows: Seq<EntryView>,
    anchor: Seq<char>,
    name: Seq<char>,
)
    requires
        s.anchor == Some(anchor),
        exists|i: int| 0 <= i < rows.len() && (#[trigger] rows[i]).name == anchor,
        exists|i: int| 0 <= i < rows.len() && (#[trigger] rows[i]).name == name,
        !is_parent_row(anchor),
        !is_parent_row(name),
    ensures
        s.clicked(rows, name, false, true).names.contains(anchor),
        s.clicked(rows, name, false, true).names.contains(name),
        s.clicked(rows, name, false, true).names == (SelectionView {
            anchor: Some(name),
            ..s
        }).clicked(rows, anchor, false, true).names,
{
    row_of_holds(rows, anchor);
    row_of_holds(rows, name);
    let a = row_of(rows, anchor);
    let b = row_of(rows, name);
    assert(a < rows.len()) by {
        let i = choose|i: int| 0 <= i < rows.len() && (#[trigger] rows[i]).name == anchor;
        assert(rows[i].name == anchor);
    }
    assert(b < rows.len()) by {
        let i = choose|i: int| 0 <= i < rows.len() && (#[trigger] rows[i]).name == name;
        assert(rows[i].name == name);
    }
    assert(rows[a].name == anchor);
    assert(rows[b].name == name);
}

/// A range can be drawn anew: it does not matter how far an earlier one from the same start
/// reached.
pub proof fn a_range_can_be_drawn_again(
    s: SelectionView,
    rows: Seq<EntryView>,
    first: Seq<char>,
    second: Seq<char>,
)
    requires
        s.anchor is Some,
        exists|i: int| 0 <= i < rows.len() && (#[trigger] rows[i]).name == s.anchor->0,
        exists|i: int| 0 <= i < rows.len() && (#[trigger] rows[i]).name == second,
    ensures
        s.clicked(rows, first, false, true).clicked(rows, second, false, true) == s.clicked(
            rows,
            second,
            false,
            true,
        ),
{
    row_of_holds(rows, s.anchor->0);
    row_of_holds(rows, second);
    let i = choose|i: int| 0 <= i < rows.len() && (#[trigger] rows[i]).name == s.anchor->0;
    assert(rows[i].name == s.anchor->0);
    let j = choose|j: int| 0 <= j < rows.len() && (#[trigger] rows[j]).name == second;
    assert(rows[j].name == second);
}

/// Selecting everything, a range or a rectangle never selects the way up.
pub proof fn the_way_up_is_not_swept_in(
    rows: Seq<EntryView>,
    lo: int,
    hi: int,
    before: Set<Seq<char>>,
    ctrl: bool,
    touched: Seq<Seq<char>>,
    name: Seq<char>,
)
    requires
        is_parent_row(name),
    ensures
        !names_between(rows, lo, hi).contains(name),
        banded(before, ctrl, touched).contains(name) ==> ctrl && before.contains(name),
{
}

/// A click selects the row alone. With the control key it changes whether the row is selected, and
/// no other row.
pub proof fn a_click_selects_one_row(
    s: SelectionView,
    rows: Seq<EntryView>,
    name: Seq<char>,
    other: Seq<char>,
)
    ensures
        s.clicked(rows, name, false, false).names.contains(other) <==> other == name,
        s.clicked(rows, name, false, false).anchor == Some(name),
        s.cell_clicked(rows, name, false, false) == s.clicked(rows, name, false, false),
        s.clicked(rows, name, true, false).names.contains(name) <==> !s.names.contains(name),
        other != name ==> (s.clicked(rows, name, true, false).names.contains(other)
            <==> s.names.contains(other)),
        s.clicked(rows, name, true, false).anchor == Some(name),
        s.cell_clicked(rows, name, true, false).names == s.clicked(rows, name, true, false).names,
        s.cell_clicked(rows, name, true, false).anchor == s.anchor,
{
}

/// With the shift key the rows from the start of the range to the clicked one are selected, both
/// included and whichever stands first, but for the way up; with the control key as well, what
/// was selected stays so.
pub proof fn a_range_holds_what_lies_between(
    s: SelectionView,
    rows: Seq<EntryView>,
    a: int,
    b: int,
    k: int,
)
    requires
        0 <= a < rows.len(),
        0 <= b < rows.len(),
        0 <= k < rows.len(),
        s.anchor == Some(rows[a].name),
        forall|i: int, j: int|
            0 <= i < j < rows.len() ==> (#[trigger] rows[i]).name != (#[trigger] rows[j]).name,
        !crate::listing::shows_the_way_up(rows[k]),
    ensures
        s.clicked(rows, rows[b].name, false, true).names.contains(rows[k].name) <==> (a <= k <= b
            || b <= k <= a),
        s.clicked(rows, rows[b].name, true, true).names.contains(rows[k].name) <==> (a <= k <= b
            || b <= k <= a || s.names.contains(rows[k].name)),
        s.cell_clicked(rows, rows[b].name, false, true).names.contains(rows[k].name) <==> (a <= k
            <= b || b <= k <= a),
        s.clicked(rows, rows[b].name, false, true).anchor == s.anchor,
        s.cell_clicked(rows, rows[b].name, false, true).anchor == Some(rows[b].name),
{
    row_of_is(rows, rows[a].name, a);
    row_of_is(rows, rows[b].name, b);
    crate::listing::the_way_up_is_told_by_its_name(rows[k]);
    let (lo, hi) = if a <= b {
        (a, b)
    } else {
        (b, a)
    };
    let n = rows[k].name;
    if lo <= k <= hi {
        assert(names_between(rows, lo, hi).contains(n));
    } else {
        if names_between(rows, lo, hi).contains(n) {
            let i = choose|i: int|
                lo <= i <= hi && 0 <= i < rows.len() && (#[trigger] rows[i]).name == n;
            assert(rows[i].name == rows[k].name);
        }
    }
}

/// All rows are selected but for the way up, and nothing else is.
pub proof fn everything_but_the_way_up_is_selected(rows: Seq<EntryView>, name: Seq<char>, k: int)
    requires
        0 <= k < rows.len(),
    ensures
        names_between(rows, 0, rows.len() - 1).contains(rows[k].name)
            <==> !crate::listing::shows_the_way_up(rows[k]),
        names_between(rows, 0, rows.len() - 1).contains(name) ==> exists|i: int|
            0 <= i < rows.len() && (#[trigger] rows[i]).name == name,
{
    crate::listing::the_way_up_is_told_by_its_name(rows[k]);
}

/// A rectangle selects what it touches, and with the control key what was selected before it.
pub proof fn a_rectangle_selects_what_it_touches(
    before: Set<Seq<char>>,
    ctrl: bool,
    touched: Seq<Seq<char>>,
    e: EntryView,
)
    requires
        !crate::listing::shows_the_way_up(e),
    ensures
        banded(before, ctrl, touched).contains(e.name) <==> (touched.contains(e.name) || (ctrl
            && before.contains(e.name))),
{
    crate::listing::the_way_up_is_told_by_its_name(e);
}

/// The selected rows stand for the entries of those names in the folder.
pub proof fn selected_rows_are_entries_of_the_folder(dir: PathView, names: Seq<Seq<char>>, i: int)
    requires
        0 <= i < names.len(),
    ensures
        paths_of(dir, names).len() == names.len(),
        paths_of(dir, names)[i].names == dir.names.push(names[i]),
        paths_of(dir, names)[i].prefix == dir.prefix,
        paths_of(dir, names)[i].rooted == dir.rooted,
{
}

/// Without a start of the range, a click with the shift key selects the row alone. Where the start
/// is no longer listed, the selection stays; in the grid the next range starts at the click.
pub proof fn a_range_needs_a_start(s: SelectionView, rows: Seq<EntryView>, name: Seq<char>, ctrl: bool)
    ensures
        s.anchor is None ==> s.clicked(rows, name, ctrl, true) == s.clicked(rows, name, false, false),
        s.anchor is None ==> s.cell_clicked(rows, name, false, true) == s.cell_clicked(
            rows,
            name,
            false,
            false,
        ),
        s.anchor is Some && (forall|i: int|
            0 <= i < rows.len() ==> (#[trigger] rows[i]).name != s.anchor->0) ==> s.clicked(
            rows,
            name,
            ctrl,
            true,
        ) == s && s.cell_clicked(rows, name, false, true) == (SelectionView {
            anchor: Some(name),
            ..s
        }),
{
    if s.anchor is Some && (forall|i: int|
        0 <= i < rows.len() ==> (#[trigger] rows[i]).name != s.anchor->0) {
        row_of_is(rows, s.anchor->0, rows.len() as int);
    }
}

} // verus!
