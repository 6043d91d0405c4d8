//! Rows that are dragged inside the window.
use crate::copy_job::opt_text;
use crate::listing::{is_parent_row, names_parent};
use crate::numerals::{decimal, to_decimal};
use crate::paths::{copy_paths, is_listed, path_views, places, FsPath, PathView, PrefixView};
use crate::selection::{paths_of, Selection, SelectionView};
use crate::text::{copy_text, joined, text_eq};
use vstd::prelude::*;

verus! {

/// A drag of rows, from the press on a row to the drop.
pub struct FileDrag {
    /// The rows are on their way.
    pub active: bool,
    /// The row that was pressed.
    pub pressed: Option<String>,
    /// The right button was pressed.
    pub right: bool,
    /// What is dragged.
    pub sources: Vec<FsPath>,
    /// What stands beside the pointer.
    pub label: String,
    /// The folder under the pointer in this frame.
    pub target: Option<FsPath>,
    /// The folder that was under the pointer in the frame before.
    pub shown_target: Option<FsPath>,
    /// For how many frames no drag and no menu begins.
    pub quiet: u8,
}

/// The view of a `FileDrag`.
#[verifier::ext_equal]
pub struct DragView {
    pub active: bool,
    pub pressed: Option<Seq<char>>,
    pub right: bool,
    pub sources: Seq<PathView>,
    pub label: Seq<char>,
    pub target: Option<PathView>,
    pub shown_target: Option<PathView>,
    pub quiet: u8,
}

/// The view of a path that may be missing.
pub open spec fn opt_path(p: Option<FsPath>) -> Option<PathView> {
    match p {
        Some(p) => Some(p@),
        None => None,
    }
}

impl View for FileDrag {
    type V = DragView;

    open spec fn view(&self) -> DragView {
        DragView {
            active: self.active,
            pressed: opt_text(self.pressed),
            right: self.right,
            sources: path_views(self.sources@),
            label: self.label@,
            target: opt_path(self.target),
            shown_target: opt_path(self.shown_target),
            quiet: self.quiet,
        }
    }
}

/// What the pointer does over a row.
#[derive(Clone, Copy, PartialEq, Eq, Structural)]
pub struct RowPointer {
    /// The pointer is over the row.
    pub over: bool,
    /// A button is held.
    pub held: bool,
    /// The right button is held.
    pub right_held: bool,
    /// The pointer has moved far enough from where it was pressed.
    pub far: bool,
    /// A rectangle is being drawn.
    pub banding: bool,
    /// Files of another program are being dragged in.
    pub incoming: bool,
}

/// What comes of a drop.
pub enum Drop {
    /// Nothing is done.
    Nothing,
    /// The user is asked what to do.
    Ask { sources: Vec<FsPath>, dest: FsPath },
    /// The files are moved, and the tab is shown that they were dropped on.
    Move { sources: Vec<FsPath>, dest: FsPath, show_tab: Option<usize> },
}

/// The view of a `Drop`.
pub enum DropView {
    Nothing,
    Ask { sources: Seq<PathView>, dest: PathView },
    Move { sources: Seq<PathView>, dest: PathView, show_tab: Option<usize> },
}

impl View for Drop {
    type V = DropView;

    open spec fn view(&self) -> DropView {
        match *self {
            Drop::Nothing => DropView::Nothing,
            Drop::Ask { sources, dest } => DropView::Ask {
                sources: path_views(sources@),
                dest: dest@,
            },
            Drop::Move { sources, dest, show_tab } => DropView::Move {
                sources: path_views(sources@),
                dest: dest@,
                show_tab,
            },
        }
    }
}

/// What stands beside the pointer while `count` rows are dragged, the row `name` among them.
pub open spec fn drag_label(name: Seq<char>, as_folder: bool, count: nat, right: bool) -> Seq<
    char,
> {
    let label = if count == 1 {
        if as_folder {
            "\u{1F4C1} "@ + name
        } else {
            "\u{1F4C4} "@ + name
        }
    } else {
        "\u{1F4E6} "@ + decimal(count) + " items"@
    };
    if right {
        label + "  [Move / Copy / Shortcut]"@
    } else {
        label
    }
}

/// The label of a drag.
fn make_label(name: &str, as_folder: bool, count: usize, right: bool) -> (r: String)
    ensures
        r@ == drag_label(name@, as_folder, count as nat, right),
{
    let label = if count == 1 {
        if as_folder {
            joined("\u{1F4C1} ", name)
        } else {
            joined("\u{1F4C4} ", name)
        }
    } else {
        joined(joined("\u{1F4E6} ", to_decimal(count as u64).as_str()).as_str(), " items")
    };
    if right {
        joined(label.as_str(), "  [Move / Copy / Shortcut]")
    } else {
        label
    }
}

/// Is not `dest`.
pub open spec fn other_than(dest: PathView) -> spec_fn(PathView) -> bool {
    |p: PathView| !p.is_same(dest)
}

/// The paths of `list` other than `dest`.
pub open spec fn without(list: Seq<PathView>, dest: PathView) -> Seq<PathView> {
    list.filter(other_than(dest))
}

/// The paths of `list` other than `dest`.
fn leave_out(list: &Vec<FsPath>, dest: &FsPath) -> (r: Vec<FsPath>)
    ensures
        path_views(r@) == without(path_views(list@), dest@),
{
    let ghost all = path_views(list@);
    let ghost f = other_than(dest@);
    let mut r: Vec<FsPath> = Vec::new();
    assert(path_views(r@) =~= all.take(0).filter(f)) by {
        reveal(Seq::filter);
    }
    for i in 0..list.len()
        invariant
            all == path_views(list@),
            f == other_than(dest@),
            path_views(r@) == all.take(i as int).filter(f),
    {
        let ghost before = path_views(r@);
        assert(all.take(i + 1).drop_last() =~= all.take(i as int));
        assert(all.take(i + 1).last() == list@[i as int]@);
        assert(all.take(i + 1).filter(f) == if f(list@[i as int]@) {
            before.push(list@[i as int]@)
        } else {
            before
        }) by {
            reveal(Seq::filter);
        }
        if !list[i].same(dest) {
            r.push(list[i].copy());
            assert(path_views(r@) =~= before.push(list@[i as int]@));
        }
    }
    assert(all.take(all.len() as int) =~= all);
    r
}

impl DragView {
    /// No drag.
    pub open spec fn idle(quiet: u8) -> DragView {
        DragView {
            active: false,
            pressed: None,
            right: false,
            sources: Seq::empty(),
            label: Seq::empty(),
            target: None,
            shown_target: None,
            quiet,
        }
    }

    /// The drag at the start of the next frame.
    pub open spec fn next_frame(self) -> DragView {
        DragView {
            shown_target: if self.active {
                self.target
            } else {
                None
            },
            target: if self.active {
                None
            } else {
                self.target
            },
            quiet: if self.quiet > 0 {
                (self.quiet - 1) as u8
            } else {
                0
            },
            ..self
        }
    }

    /// Whether the pointer's press begins on the row `name`.
    pub open spec fn presses(self, name: Seq<char>, at: RowPointer) -> bool {
        at.over && at.held && !self.active && self.quiet == 0 && !at.banding
            && self.pressed is None && !is_parent_row(name) && !at.incoming
    }

    /// The drag after the press, or after the button was let go without a drag.
    pub open spec fn touched(self, name: Seq<char>, at: RowPointer) -> DragView {
        if self.presses(name, at) {
            DragView { pressed: Some(name), right: at.right_held, ..self }
        } else if !self.active && !at.held {
            DragView { pressed: None, right: false, ..self }
        } else {
            self
        }
    }

    /// Whether the drag of the row `name` begins.
    pub open spec fn begins(self, name: Seq<char>, at: RowPointer) -> bool {
        at.held && self.pressed == Some(name) && !self.active && !at.banding && !is_parent_row(name)
            && at.far
    }

    /// What a drag of the row `name` takes: every selected row where it is one of them, else the
    /// row alone.
    pub open spec fn picked(
        name: Seq<char>,
        dir: PathView,
        selected: Set<Seq<char>>,
        order: Seq<Seq<char>>,
    ) -> Seq<PathView> {
        if selected.contains(name) {
            paths_of(dir, order)
        } else {
            seq![dir.join(name)]
        }
    }

    /// Where a drop goes: the folder of the tab below the pointer, else the folder below it.
    pub open spec fn candidate(self, tab: Option<PathView>) -> Option<PathView> {
        match tab {
            Some(p) => Some(p),
            None => self.target,
        }
    }

    /// The folder that receives a drop: the candidate where it is a folder, else the folder that
    /// is shown.
    pub open spec fn destination(
        self,
        tab: Option<PathView>,
        is_dir: bool,
        current: PathView,
    ) -> PathView {
        match self.candidate(tab) {
            Some(p) => if is_dir {
                p
            } else {
                current
            },
            None => current,
        }
    }

    /// What comes of letting go.
    pub open spec fn dropped(
        self,
        tab: Option<(usize, PathView)>,
        is_dir: bool,
        current: PathView,
        inside: bool,
    ) -> DropView {
        let tab_path = match tab {
            Some(t) => Some(t.1),
            None => None,
        };
        let dest = self.destination(tab_path, is_dir, current);
        let sources = without(self.sources, dest);
        if sources.len() == 0 || !inside {
            DropView::Nothing
        } else if self.right {
            DropView::Ask { sources, dest }
        } else {
            DropView::Move {
                sources,
                dest,
                show_tab: match tab {
                    Some(t) => Some(t.0),
                    None => None,
                },
            }
        }
    }
}

impl FileDrag {
    /// No drag.
    pub fn new() -> (r: FileDrag)
        ensures
            r@ == DragView::idle(0),
    {
        let r = FileDrag {
            active: false,
            pressed: None,
            right: false,
            sources: Vec::new(),
            label: String::new(),
            target: None,
            shown_target: None,
            quiet: 0,
        };
        assert(path_views(r.sources@) =~= Seq::empty());
        assert(r.label@ =~= Seq::empty());
        r
    }

    /// Begins a frame.
    pub fn next_frame(&mut self)
        ensures
            final(self)@ == old(self)@.next_frame(),
    {
        if self.active {
            self.shown_target = self.target.take();
        } else {
            self.shown_target = None;
        }
        if self.quiet > 0 {
            self.quiet = self.quiet - 1;
        }
    }

    /// Looks at the pointer over the row `name`: notes a press that begins there, and forgets a
    /// press that was let go.
    pub fn touch(&mut self, name: &str, at: RowPointer)
        ensures
            final(self)@ == old(self)@.touched(name@, at),
    {
        if at.over && at.held && !self.active && self.quiet == 0 && !at.banding
            && self.pressed.is_none() && !names_parent(name) && !at.incoming {
            self.pressed = Some(copy_text(name));
            self.right = at.right_held;
        } else if !self.active && !at.held {
            self.pressed = None;
            self.right = false;
        }
    }

    /// Begins the drag of the row `name` of the folder `dir` where the pointer has moved far
    /// enough. A row that was not selected is selected alone.
    pub fn begin(
        &mut self,
        name: &str,
        as_folder: bool,
        at: RowPointer,
        dir: &FsPath,
        selection: &mut Selection,
    ) -> (r: bool)
        requires
            old(selection).wf(),
        ensures
            final(selection).wf(),
            r == old(self)@.begins(name@, at),
            !r ==> final(self)@ == old(self)@ && final(selection)@ == old(selection)@,
            r ==> {
                let sources = DragView::picked(
                    name@,
                    dir@,
                    old(selection)@.names,
                    old(selection).names.order(),
                );
                &&& final(selection)@ == (SelectionView {
                    names: if old(selection)@.names.contains(name@) {
                        old(selection)@.names
                    } else {
                        set![name@]
                    },
                    ..old(selection)@
                })
                &&& final(self)@ == (DragView {
                    active: true,
                    sources,
                    label: drag_label(name@, as_folder, sources.len(), old(self)@.right),
                    ..old(self)@
                })
            },
    {
        let is_pressed = match &self.pressed {
            Some(p) => text_eq(p.as_str(), name),
            None => false,
        };
        if !(at.held && is_pressed && !self.active && !at.banding && !names_parent(name)
            && at.far) {
            return false;
        }
        if selection.names.contains(name) {
            self.sources = selection.paths_in(dir);
        } else {
            let mut sources: Vec<FsPath> = Vec::new();
            sources.push(dir.join(name));
            assert(path_views(sources@) =~= seq![dir@.join(name@)]);
            self.sources = sources;
            selection.right_click(name);
        }
        assert(path_views(self.sources@).len() == self.sources@.len());
        self.label = make_label(name, as_folder, self.sources.len(), self.right);
        self.active = true;
        true
    }

    /// Notes the path `p` below the pointer, where a drop on it can do anything.
    pub fn hover(&mut self, p: &FsPath, is_dir: bool) -> (r: bool)
        ensures
            r == (old(self)@.active && is_dir && !places(old(self)@.sources).contains(p@.place())),
            final(self)@ == (DragView {
                target: if r {
                    Some(p@)
                } else {
                    old(self)@.target
                },
                ..old(self)@
            }),
    {
        if self.active && is_dir && !is_listed(p, &self.sources) {
            self.target = Some(p.copy());
            true
        } else {
            false
        }
    }

    /// Hands out what is dragged, because the pointer has left the window with the button held.
    pub fn leave_window(&mut self, held: bool, outside: bool) -> (r: Option<Vec<FsPath>>)
        ensures
            match r {
                Some(sources) => {
                    &&& old(self)@.active && held && outside && old(self)@.sources.len() > 0
                    &&& path_views(sources@) == old(self)@.sources
                    &&& final(self)@ == DragView::idle(3)
                },
                None => {
                    &&& !(old(self)@.active && held && outside && old(self)@.sources.len() > 0)
                    &&& final(self)@ == old(self)@
                },
            },
    {
        assert(path_views(self.sources@).len() == self.sources@.len());
        if self.active && held && outside && self.sources.len() > 0 {
            let sources = copy_paths(&self.sources);
            *self = FileDrag::new();
            self.quiet = 3;
            Some(sources)
        } else {
            None
        }
    }

    /// The path of which the caller says at a drop whether it is a folder.
    pub fn candidate(&self, tab: Option<&FsPath>) -> (r: Option<FsPath>)
        ensures
            opt_path(r) == self@.candidate(
                match tab {
                    Some(p) => Some(p@),
                    None => None,
                },
            ),
    {
        match tab {
            Some(p) => Some(p.copy()),
            None => match &self.target {
                Some(p) => Some(p.copy()),
                None => None,
            },
        }
    }

    /// Ends the drag: the button was let go, over the tab `tab` or over none. What the drag took
    /// goes into the destination, unless that is all it took or the pointer is outside.
    pub fn release(
        &mut self,
        tab: Option<(usize, &FsPath)>,
        is_dir: bool,
        current: &FsPath,
        inside: bool,
    ) -> (r: Drop)
        ensures
            r@ == old(self)@.dropped(
                match tab {
                    Some(t) => Some((t.0, t.1@)),
                    None => None,
                },
                is_dir,
                current@,
                inside,
            ),
            final(self)@ == (DragView {
                shown_target: old(self)@.shown_target,
                ..DragView::idle(2)
            }),
    {
        let tab_path = match tab {
            Some(t) => Some(t.1),
            None => None,
        };
        let dest = match self.candidate(tab_path) {
            Some(p) => if is_dir {
                p
            } else {
                current.copy()
            },
            None => current.copy(),
        };
        let sources = leave_out(&self.sources, &dest);
        let right = self.right;
        let shown_target = self.shown_target.take();
        *self = FileDrag::new();
        self.shown_target = shown_target;
        self.quiet = 2;
        assert(path_views(sources@).len() == sources@.len());
        if sources.len() == 0 || !inside {
            Drop::Nothing
        } else if right {
            Drop::Ask { sources, dest }
        } else {
            let show_tab: Option<usize> = match tab {
                Some(t) => Some(t.0),
                None => None,
            };
            Drop::Move { sources, dest, show_tab }
        }
    }

    /// Gives the drag up.
    pub fn cancel(&mut self)
        ensures
            final(self)@ == DragView::idle(old(self)@.quiet),
    {
        let quiet: u8 = self.quiet;
        *self = FileDrag::new();
        self.quiet = quiet;
    }

    /// Gives the drag up, because files of another program were dropped here.
    pub fn yield_to_incoming(&mut self)
        ensures
            final(self)@ == (DragView {
                active: false,
                sources: Seq::empty(),
                pressed: None,
                quiet: 2,
                ..old(self)@
            }),
    {
        self.active = false;
        self.sources = Vec::new();
        assert(path_views(self.sources@) =~= Seq::empty());
        self.pressed = None;
        self.quiet = 2;
    }

    /// Forgets a press, because a rectangle is drawn.
    pub fn forget_press(&mut self)
        ensures
            final(self)@ == (DragView { pressed: None, ..old(self)@ }),
    {
        self.pressed = None;
    }

    /// Whether letting go of the right button over a row opens the row's menu.
    pub fn opens_row_menu(&self, let_go: bool) -> (r: bool)
        ensures
            r == (let_go && !self@.right && self@.quiet == 0),
    {
        let_go && !self.right && self.quiet == 0
    }

    /// Whether letting go of the right button opens the menu of the background: no menu of a
    /// row opened, and nothing is dragged.
    pub fn opens_background_menu(&self, let_go: bool, row_menu: bool) -> (r: bool)
        ensures
            r == (let_go && !row_menu && !self@.active && self@.quiet == 0),
    {
        let_go && !row_menu && !self.active && self.quiet == 0
    }
}

// ---------------------------------------------------------------------------
// Tabs below the pointer
// ---------------------------------------------------------------------------

/// For how many milliseconds the pointer rests on a tab before the tab is shown.
pub const TAB_REST_MS: u64 = 500;

/// The tab below the pointer of a drag, and since when, in milliseconds.
#[derive(Clone, Copy, PartialEq, Eq, Structural)]
pub struct TabHover {
    pub tab: usize,
    pub since: u64,
}

/// Moves the pointer of a drag to the tab `tab`, or to none. Names the tab to show once the
/// pointer has rested on it.
pub fn hover_tab(hover: Option<TabHover>, tab: Option<usize>, shown: usize, now: u64) -> (r: (
    Option<TabHover>,
    Option<usize>,
))
    ensures
        match tab {
            Some(t) => if t == shown {
                r == (None::<TabHover>, None::<usize>)
            } else if hover is Some && hover->0.tab == t {
                if now - hover->0.since >= TAB_REST_MS {
                    r == (Some(TabHover { tab: t, since: now }), Some(t))
                } else {
                    r == (hover, None::<usize>)
                }
            } else {
                r == (Some(TabHover { tab: t, since: now }), None::<usize>)
            },
            None => r == (None::<TabHover>, None::<usize>),
        },
{
    match tab {
        Some(t) => {
            if t == shown {
                return (None, None);
            }
            match hover {
                Some(h) => {
                    if h.tab == t {
                        if now >= h.since && now - h.since >= TAB_REST_MS {
                            return (Some(TabHover { tab: t, since: now }), Some(t));
                        }
                        return (hover, None);
                    }
                },
                None => {},
            }
            (Some(TabHover { tab: t, since: now }), None)
        },
        None => (None, None),
    }
}

// ---------------------------------------------------------------------------
// The menu after a drop with the right button
// ---------------------------------------------------------------------------

/// What a path starts with: its prefix, else its root, else its first name.
pub enum FirstPart {
    Prefix(PrefixView),
    Root,
    Name(Seq<char>),
    Missing,
}

/// What `p` starts with.
pub open spec fn first_part(p: PathView) -> FirstPart {
    if !p.prefix.is_empty() {
        FirstPart::Prefix(p.prefix)
    } else if p.rooted {
        FirstPart::Root
    } else if p.names.len() > 0 {
        FirstPart::Name(p.names[0])
    } else {
        FirstPart::Missing
    }
}

/// Whether two paths start alike.
fn start_alike(a: &FsPath, b: &FsPath) -> (r: bool)
    ensures
        r == (first_part(a@) == first_part(b@) && first_part(a@) !is Missing),
{
    if !a.prefix.is_empty() || !b.prefix.is_empty() {
        return !a.prefix.is_empty() && !b.prefix.is_empty() && a.prefix.same(&b.prefix);
    }
    if a.rooted || b.rooted {
        return a.rooted && b.rooted;
    }
    if a.names.len() == 0 || b.names.len() == 0 {
        return false;
    }
    text_eq(a.names[0].as_str(), b.names[0].as_str())
}

/// The text of the entry that moves the files: a move to another drive copies and deletes. The
/// first file decides.
pub fn move_here_label(sources: &Vec<FsPath>, dest: &FsPath) -> (r: &'static str)
    ensures
        r@ == if sources@.len() > 0 && first_part(sources@[0]@) == first_part(dest@) && first_part(
            dest@,
        ) !is Missing {
            "Move here"@
        } else {
            "Move here  (copy+delete)"@
        },
{
    if sources.len() > 0 && start_alike(&sources[0], dest) {
        "Move here"
    } else {
        "Move here  (copy+delete)"
    }
}

// ---------------------------------------------------------------------------
// Laws
// ---------------------------------------------------------------------------

/// A folder is never dropped into itself.
pub proof fn nothing_is_dropped_into_itself(
    d: DragView,
    tab: Option<(usize, PathView)>,
    is_dir: bool,
    current: PathView,
    inside: bool,
)
    ensures
        match d.dropped(tab, is_dir, current, inside) {
            DropView::Nothing => true,
            DropView::Ask { sources, dest } => !places(sources).contains(dest.place()),
            DropView::Move { sources, dest, .. } => !places(sources).contains(dest.place()),
        },
{
    let tab_path = match tab {
        Some(t) => Some(t.1),
        None => None,
    };
    let dest = d.destination(tab_path, is_dir, current);
    let sources = without(d.sources, dest);
    assert forall|i: int| 0 <= i < sources.len() implies places(sources)[i] != dest.place() by {
        assert(sources.contains(sources[i]));
        a_drop_takes_what_was_dragged(d.sources, dest, sources[i]);
    }
}

/// A drop takes every dragged path but the destination, and nothing else.
pub proof fn a_drop_takes_what_was_dragged(list: Seq<PathView>, dest: PathView, p: PathView)
    ensures
        without(list, dest).contains(p) <==> list.contains(p) && !p.is_same(dest),
{
    broadcast use vstd::seq_lib::group_filter_ensures;

    let f = other_than(dest);
    if without(list, dest).contains(p) {
        list.lemma_filter_contains_rev(f, p);
        let k = without(list, dest).index_of(p);
        assert(f(list.filter(f)[k]));
    }
    if list.contains(p) && !p.is_same(dest) {
        let k = list.index_of(p);
        assert(f(list[k]));
        assert(list.filter(f).contains(list[k]));
    }
}

/// With the left button files move; the right button asks first, whatever it is let go over.
pub proof fn the_right_button_asks(
    d: DragView,
    tab: Option<(usize, PathView)>,
    is_dir: bool,
    current: PathView,
    inside: bool,
)
    ensures
        d.right ==> d.dropped(tab, is_dir, current, inside) !is Move,
        !d.right ==> d.dropped(tab, is_dir, current, inside) !is Ask,
        !inside ==> d.dropped(tab, is_dir, current, inside) is Nothing,
{
}

/// After a drop no press begins a drag until two frames have passed.
pub proof fn a_drop_is_followed_by_quiet(name: Seq<char>, at: RowPointer)
    ensures
        !DragView::idle(2).next_frame().presses(name, at),
        DragView::idle(2).next_frame().next_frame().quiet == 0,
{
}

/// A drag takes every selected row where the dragged one is among them, and the dragged row alone
/// otherwise.
pub proof fn a_drag_takes_the_selection_or_the_row(
    name: Seq<char>,
    dir: PathView,
    order: Seq<Seq<char>>,
    i: int,
)
    ensures
        order.contains(name) && 0 <= i < order.len() ==> ({
            let p = DragView::picked(name, dir, order.to_set(), order);
            p.len() == order.len() && p[i].names == dir.names.push(order[i]) && p[i].prefix
                == dir.prefix && p[i].rooted == dir.rooted
        }),
        !order.contains(name) ==> ({
            let p = DragView::picked(name, dir, order.to_set(), order);
            p.len() == 1 && p[0].names == dir.names.push(name) && p[0].prefix == dir.prefix
                && p[0].rooted == dir.rooted
        }),
{
}

/// A drop goes to the folder of the tab that it is let go over, else to the folder below the
/// pointer, and to the folder that is shown where neither is a folder. There it moves everything
/// that was dragged but that folder itself.
pub proof fn a_drop_goes_where_it_is_let_go(
    d: DragView,
    tab: usize,
    folder: PathView,
    current: PathView,
)
    requires
        forall|i: int|
            0 <= i < d.sources.len() ==> !(#[trigger] d.sources[i]).is_same(folder)
                && !d.sources[i].is_same(current),
        d.sources.len() > 0,
        !d.right,
    ensures
        d.dropped(Some((tab, folder)), true, current, true) == (DropView::Move {
            sources: d.sources,
            dest: folder,
            show_tab: Some(tab),
        }),
        d.target == Some(folder) ==> d.dropped(None, true, current, true) == (DropView::Move {
            sources: d.sources,
            dest: folder,
            show_tab: None,
        }),
        d.target is None ==> d.dropped(None, true, current, true) == (DropView::Move {
            sources: d.sources,
            dest: current,
            show_tab: None,
        }),
        d.dropped(None, false, current, true) == (DropView::Move {
            sources: d.sources,
            dest: current,
            show_tab: None,
        }),
        (DragView { right: true, ..d }).dropped(Some((tab, folder)), true, current, true)
            == (DropView::Ask { sources: d.sources, dest: folder }),
{
    all_stay(d.sources, folder);
    all_stay(d.sources, current);
}

proof fn all_stay(list: Seq<PathView>, dest: PathView)
    requires
        forall|i: int| 0 <= i < list.len() ==> !(#[trigger] list[i]).is_same(dest),
    ensures
        without(list, dest) == list,
    decreases list.len(),
{
    reveal(Seq::filter);
    if list.len() > 0 {
        let front = list.drop_last();
        assert forall|i: int| 0 <= i < front.len() implies !(#[trigger] front[i]).is_same(dest) by {
            assert(front[i] == list[i]);
        }
        all_stay(front, dest);
        assert(!list[list.len() - 1].is_same(dest));
        assert(front.push(list.last()) =~= list);
    } else {
        assert(without(list, dest) =~= list);
    }
}

/// A drag begins with a press on a row that is not the way up, and only once the pointer has moved
/// far enough with the button held; a press that is let go before is forgotten.
pub proof fn a_drag_begins_with_a_press_and_a_move(
    d: DragView,
    e: crate::types::EntryView,
    at: RowPointer,
)
    requires
        d.pressed is None,
        !d.active,
        d.quiet == 0,
        !at.banding,
        !at.incoming,
    ensures
        at.over && at.held && !crate::listing::shows_the_way_up(e) ==> d.touched(e.name, at).pressed
            == Some(e.name) && d.touched(e.name, at).right == at.right_held && (d.touched(
            e.name,
            at,
        ).begins(e.name, at) <==> at.far),
        crate::listing::shows_the_way_up(e) || !at.over || !at.held ==> d.touched(
            e.name,
            at,
        ).pressed is None && !d.touched(e.name, at).begins(e.name, at),
        !at.held ==> d.touched(e.name, RowPointer { held: true, over: true, ..at }).touched(
            e.name,
            at,
        ).pressed is None,
{
    crate::listing::the_way_up_is_told_by_its_name(e);
}

/// The folder below the pointer is shown as such one frame later, and only while something is
/// dragged.
pub proof fn the_target_is_shown_in_the_next_frame(d: DragView)
    ensures
        d.active ==> d.next_frame().shown_target == d.target && d.next_frame().target is None,
        !d.active ==> d.next_frame().shown_target is None,
        d.next_frame().sources == d.sources,
        d.next_frame().active == d.active,
        d.next_frame().pressed == d.pressed,
        d.quiet > 0 ==> d.next_frame().quiet == d.quiet - 1,
{
}

/// Paths on one drive start alike, and paths on two drives do not.
pub proof fn paths_start_alike_on_one_drive(a: PathView, b: PathView, m: u8, n: u8)
    requires
        a.prefix == PrefixView::Disk(m),
        b.prefix == PrefixView::Disk(n),
    ensures
        first_part(a) == first_part(b) <==> m == n,
        first_part(a) !is Missing,
{
}

/// What stands beside the pointer names a single row, and counts several.
pub proof fn a_drag_is_labelled(name: Seq<char>, as_folder: bool, count: nat, right: bool)
    requires
        count != 1,
    ensures
        crate::text::ends_with(drag_label(name, as_folder, 1, false), name),
        crate::text::occurs_in(drag_label(name, as_folder, count, right), decimal(count)),
        drag_label(name, as_folder, count, true) == drag_label(name, as_folder, count, false)
            + "  [Move / Copy / Shortcut]"@,
        drag_label(name, as_folder, 1, true) == drag_label(name, as_folder, 1, false)
            + "  [Move / Copy / Shortcut]"@,
{
    crate::text::a_part_is_found("\u{1F4C1} "@, name, Seq::empty());
    crate::text::a_part_is_found("\u{1F4C4} "@, name, Seq::empty());
    let tail = " items"@ + (if right {
        "  [Move / Copy / Shortcut]"@
    } else {
        Seq::empty()
    });
    crate::text::a_part_is_found("\u{1F4E6} "@, decimal(count), tail);
    assert(drag_label(name, as_folder, count, right) =~= "\u{1F4E6} "@ + decimal(count) + tail);
}

} // verus!
