//! How the rows of a listing look, and what a double click on them does.
use crate::file_utils::{image_name, is_image_file, is_video_file, video_name};
use crate::listing::{is_parent_row, names_parent};
use crate::paths::{path_views, places, pushing_adds_one, FsPath, PathMap, PathView, PlaceView};
use crate::shortcuts::is_shortcut;
use crate::text::{ends_with, joined, lowercase};
use crate::types::{entry_views, EntryView, FileEntry, Rgb, SortColumn};
use vstd::prelude::*;

verus! {

// ---------------------------------------------------------------------------
// Headers
// ---------------------------------------------------------------------------

/// The column that a listing is sorted by, and the direction.
#[derive(Clone, Copy, PartialEq, Eq, Structural)]
pub struct SortState {
    pub column: SortColumn,
    pub ascending: bool,
}

/// The order after a click on the header of `column`: the other direction where the listing is
/// sorted by it, else names upwards, and sizes and dates downwards.
pub open spec fn header_clicked(s: SortState, column: SortColumn) -> SortState {
    if s.column == column {
        SortState { ascending: !s.ascending, ..s }
    } else {
        SortState { column, ascending: column == SortColumn::Name }
    }
}

/// The order after a click on the header of `column`.
pub fn click_header(s: SortState, column: SortColumn) -> (r: SortState)
    ensures
        r == header_clicked(s, column),
{
    if s.column == column {
        SortState { column, ascending: !s.ascending }
    } else {
        SortState { column, ascending: column == SortColumn::Name }
    }
}

/// The order after the column of dates came or went: dates downwards once it is there, names
/// upwards where the dates were what the listing was sorted by.
pub fn show_dates(s: SortState, shown: bool) -> (r: SortState)
    ensures
        r == if shown {
            SortState { column: SortColumn::Date, ascending: false }
        } else if s.column == SortColumn::Date {
            SortState { column: SortColumn::Name, ascending: true }
        } else {
            s
        },
{
    if shown {
        SortState { column: SortColumn::Date, ascending: false }
    } else if s.column == SortColumn::Date {
        SortState { column: SortColumn::Name, ascending: true }
    } else {
        s
    }
}

/// The name of a column.
pub open spec fn column_name(column: SortColumn) -> Seq<char> {
    match column {
        SortColumn::Name => "Name"@,
        SortColumn::Size => "Size"@,
        SortColumn::Date => "Date"@,
    }
}

/// The text of the header of `column`, with an arrow where the listing is sorted by it.
pub fn header_text(s: SortState, column: SortColumn) -> (r: String)
    ensures
        r@ == column_name(column) + if s.column == column {
            if s.ascending {
                " \u{2191}"@
            } else {
                " \u{2193}"@
            }
        } else {
            ""@
        },
{
    let name = match column {
        SortColumn::Name => "Name",
        SortColumn::Size => "Size",
        SortColumn::Date => "Date",
    };
    let arrow = if s.column == column {
        if s.ascending {
            " \u{2191}"
        } else {
            " \u{2193}"
        }
    } else {
        ""
    };
    joined(name, arrow)
}

/// Three clicks on one header leave the order of the first: from the first on, they only turn
/// the direction.
pub proof fn header_clicks_turn_about(s: SortState, column: SortColumn)
    ensures
        header_clicked(header_clicked(header_clicked(s, column), column), column) == header_clicked(
            s,
            column,
        ),
        header_clicked(s, column).column == column,
{
}

// ---------------------------------------------------------------------------
// Rows
// ---------------------------------------------------------------------------

/// The color that a name is written in.
#[derive(Clone, Copy, PartialEq, Eq, Structural)]
pub enum Ink {
    White,
    /// The gray of names on a folder's yellow.
    Dark,
    /// The color of text in general.
    Theme,
}

/// How the name of a row looks.
#[derive(Clone, Copy, PartialEq, Eq, Structural)]
pub struct RowLook {
    pub fill: Option<Rgb>,
    pub ink: Ink,
    pub italic: bool,
    /// The extension has a color of its own.
    pub colored_extension: bool,
}

/// The yellow of folders.
pub open spec fn folder_yellow() -> Rgb {
    Rgb { r: 255, g: 245, b: 150 }
}

/// The blue of selected rows.
pub open spec fn selected_blue() -> Rgb {
    Rgb { r: 100, g: 150, b: 255 }
}

/// The green of a folder that a drop would go to.
pub open spec fn target_green() -> Rgb {
    Rgb { r: 80, g: 200, b: 80 }
}

/// The blue of selected cells of the thumbnail grid.
pub open spec fn cell_blue() -> Rgb {
    Rgb { r: 80, g: 130, b: 220 }
}

/// How the name of a row looks. The target of a drop goes before what is selected, that before
/// what is on the clipboard, and that before what the row is.
pub open spec fn look_of(
    target: bool,
    selected: bool,
    on_clipboard: bool,
    is_dir: bool,
    parent: bool,
) -> RowLook {
    let fill = if target {
        Some(target_green())
    } else if selected {
        Some(selected_blue())
    } else if is_dir && (on_clipboard || !parent) {
        Some(folder_yellow())
    } else {
        None
    };
    RowLook {
        fill,
        ink: if target || selected {
            Ink::White
        } else if fill is Some {
            Ink::Dark
        } else {
            Ink::Theme
        },
        italic: !target && on_clipboard,
        colored_extension: target || selected || on_clipboard || !parent,
    }
}

/// How the name of a row looks.
pub fn row_look(
    target: bool,
    selected: bool,
    on_clipboard: bool,
    is_dir: bool,
    name: &str,
) -> (r: RowLook)
    ensures
        r == look_of(target, selected, on_clipboard, is_dir, is_parent_row(name@)),
{
    let white = RowLook {
        fill: Some(Rgb { r: 100, g: 150, b: 255 }),
        ink: Ink::White,
        italic: false,
        colored_extension: true,
    };
    let yellow = RowLook {
        fill: Some(Rgb { r: 255, g: 245, b: 150 }),
        ink: Ink::Dark,
        italic: false,
        colored_extension: true,
    };
    let plain = RowLook { fill: None, ink: Ink::Theme, italic: false, colored_extension: true };
    if target {
        RowLook { fill: Some(Rgb { r: 80, g: 200, b: 80 }), ..white }
    } else if selected && on_clipboard {
        RowLook { italic: true, ..white }
    } else if selected {
        white
    } else if on_clipboard && is_dir {
        RowLook { italic: true, ..yellow }
    } else if on_clipboard {
        RowLook { italic: true, ..plain }
    } else if names_parent(name) {
        RowLook { colored_extension: false, ..plain }
    } else if is_dir {
        yellow
    } else {
        plain
    }
}

/// What the column of sizes shows in a row.
#[derive(Clone, Copy, PartialEq, Eq, Structural)]
pub enum SizeCell {
    Blank,
    /// A number of bytes.
    Bytes(u64),
    /// A file whose size is not known yet.
    Pending,
}

/// What the column of sizes shows: nothing for the way up, the size where it is known, and
/// until then nothing counted for a folder.
pub fn size_cell(name: &str, is_dir: bool, size: Option<u64>) -> (r: SizeCell)
    ensures
        r == if is_parent_row(name@) {
            SizeCell::Blank
        } else {
            match size {
                Some(n) => SizeCell::Bytes(n),
                None => if is_dir {
                    SizeCell::Bytes(0)
                } else {
                    SizeCell::Pending
                },
            }
        },
{
    if names_parent(name) {
        return SizeCell::Blank;
    }
    match size {
        Some(n) => SizeCell::Bytes(n),
        None => if is_dir {
            SizeCell::Bytes(0)
        } else {
            SizeCell::Pending
        },
    }
}

/// The folder or file of a row: the folder above for the way up.
pub open spec fn row_target(dir: PathView, name: Seq<char>) -> Option<PathView> {
    if is_parent_row(name) {
        dir.parent()
    } else {
        Some(dir.join(name))
    }
}

/// The folder or file of the row `name` of the folder `dir`.
pub fn row_path(dir: &FsPath, name: &str) -> (r: Option<FsPath>)
    ensures
        match r {
            Some(p) => row_target(dir@, name@) == Some(p@),
            None => row_target(dir@, name@) is None,
        },
{
    if names_parent(name) {
        dir.parent()
    } else {
        Some(dir.join(name))
    }
}

/// Whether the row is the folder that a drop would go to.
pub fn is_target_row(
    active: bool,
    is_dir: bool,
    dir: &FsPath,
    name: &str,
    target: Option<&FsPath>,
) -> (r: bool)
    ensures
        r == (active && is_dir && match (row_target(dir@, name@), target) {
            (Some(p), Some(t)) => p.is_same(t@),
            (None, None) => true,
            _ => false,
        }),
{
    if !active || !is_dir {
        return false;
    }
    match (row_path(dir, name), target) {
        (Some(p), Some(t)) => p.same(t),
        (None, None) => true,
        _ => false,
    }
}

/// What a double click asks for.
pub enum Activation {
    /// To show the folder above.
    GoUp,
    /// To show a folder.
    OpenDir(FsPath),
    /// To ask the shell where a shortcut leads.
    Follow(FsPath),
    /// To have the shell open a file.
    OpenFile(FsPath),
}

/// The view of an `Activation`.
pub enum ActivationView {
    GoUp,
    OpenDir(PathView),
    Follow(PathView),
    OpenFile(PathView),
}

impl View for Activation {
    type V = ActivationView;

    open spec fn view(&self) -> ActivationView {
        match self {
            Activation::GoUp => ActivationView::GoUp,
            Activation::OpenDir(p) => ActivationView::OpenDir(p@),
            Activation::Follow(p) => ActivationView::Follow(p@),
            Activation::OpenFile(p) => ActivationView::OpenFile(p@),
        }
    }
}

/// What a double click on a row asks for.
pub fn activate(dir: &FsPath, name: &str, is_dir: bool) -> (r: Activation)
    ensures
        r@ == if is_parent_row(name@) {
            ActivationView::GoUp
        } else if is_dir {
            ActivationView::OpenDir(dir@.join(name@))
        } else if ends_with(lowercase(name@), ".lnk"@) {
            ActivationView::Follow(dir@.join(name@))
        } else {
            ActivationView::OpenFile(dir@.join(name@))
        },
{
    if names_parent(name) {
        Activation::GoUp
    } else if is_dir {
        Activation::OpenDir(dir.join(name))
    } else if is_shortcut(name) {
        Activation::Follow(dir.join(name))
    } else {
        Activation::OpenFile(dir.join(name))
    }
}

/// What a double click on the shortcut `link` asks for, once the shell has said where it leads:
/// what it leads to, or the shortcut itself where it leads nowhere.
pub fn follow(link: FsPath, target: Option<FsPath>, target_is_dir: bool) -> (r: Activation)
    ensures
        r@ == match target {
            Some(t) => if target_is_dir {
                ActivationView::OpenDir(t@)
            } else {
                ActivationView::OpenFile(t@)
            },
            None => ActivationView::OpenFile(link@),
        },
{
    match target {
        Some(t) => if target_is_dir {
            Activation::OpenDir(t)
        } else {
            Activation::OpenFile(t)
        },
        None => Activation::OpenFile(link),
    }
}

// ---------------------------------------------------------------------------
// Thumbnails
// ---------------------------------------------------------------------------

/// What a cell of the thumbnail grid shows.
#[derive(Clone, Copy, PartialEq, Eq, Structural)]
pub enum CellPicture {
    /// The picture of an image file.
    Image,
    Video,
    Folder,
    File,
}

/// What the cell of an entry shows.
pub fn cell_picture(name: &str, is_dir: bool) -> (r: CellPicture)
    ensures
        r == if image_name(name@) {
            CellPicture::Image
        } else if video_name(name@) {
            CellPicture::Video
        } else if is_dir {
            CellPicture::Folder
        } else {
            CellPicture::File
        },
{
    if is_image_file(name) {
        CellPicture::Image
    } else if is_video_file(name) {
        CellPicture::Video
    } else if is_dir {
        CellPicture::Folder
    } else {
        CellPicture::File
    }
}

/// The background of a cell; none where nothing is to be seen there.
pub fn cell_fill(target: bool, selected: bool) -> (r: Option<Rgb>)
    ensures
        r == if target {
            Some(target_green())
        } else if selected {
            Some(cell_blue())
        } else {
            None
        },
{
    if target {
        Some(Rgb { r: 80, g: 200, b: 80 })
    } else if selected {
        Some(Rgb { r: 80, g: 130, b: 220 })
    } else {
        None
    }
}

/// The entries that have a cell: all but the way up.
pub open spec fn cells(rows: Seq<EntryView>) -> Seq<EntryView>
    decreases rows.len(),
{
    if rows.len() == 0 {
        Seq::empty()
    } else if is_parent_row(rows.last().name) {
        cells(rows.drop_last())
    } else {
        cells(rows.drop_last()).push(rows.last())
    }
}

/// The entries that have a cell.
pub fn cells_of(rows: &Vec<FileEntry>) -> (r: Vec<FileEntry>)
    ensures
        entry_views(r@) == cells(entry_views(rows@)),
{
    let ghost all = entry_views(rows@);
    let mut r: Vec<FileEntry> = Vec::new();
    assert(entry_views(r@) =~= cells(all.take(0)));
    for i in 0..rows.len()
        invariant
            all == entry_views(rows@),
            entry_views(r@) == cells(all.take(i as int)),
    {
        let ghost before = entry_views(r@);
        assert(all.take(i + 1).drop_last() =~= all.take(i as int));
        assert(all.take(i + 1).last() == rows@[i as int]@);
        if !names_parent(rows[i].name.as_str()) {
            r.push(rows[i].copy());
            assert(entry_views(r@) =~= before.push(rows@[i as int]@));
        }
    }
    assert(all.take(all.len() as int) =~= all);
    r
}

/// The pictures that are to be read: of the images among the cells, those that are neither there
/// nor on their way.
pub open spec fn to_read(
    dir: PathView,
    rows: Seq<EntryView>,
    there: Set<PlaceView>,
    on_their_way: Set<PlaceView>,
) -> Seq<PathView>
    decreases rows.len(),
{
    if rows.len() == 0 {
        Seq::empty()
    } else {
        let before = to_read(dir, rows.drop_last(), there, on_their_way);
        let p = dir.join(rows.last().name);
        if !is_parent_row(rows.last().name) && image_name(rows.last().name) && !there.contains(
            p.place(),
        ) && !on_their_way.contains(p.place()) {
            before.push(p)
        } else {
            before
        }
    }
}

/// Names the pictures that are to be read, and notes that they are on their way.
pub fn pictures_to_read(
    dir: &FsPath,
    rows: &Vec<FileEntry>,
    there: &PathMap<()>,
    on_their_way: &mut PathMap<()>,
) -> (r: Vec<FsPath>)
    requires
        there.wf(),
        old(on_their_way).wf(),
    ensures
        final(on_their_way).wf(),
        path_views(r@) == to_read(
            dir@,
            entry_views(rows@),
            there@.dom(),
            old(on_their_way)@.dom(),
        ),
        final(on_their_way)@.dom() == old(on_their_way)@.dom().union(
            places(path_views(r@)).to_set(),
        ),
{
    let ghost all = entry_views(rows@);
    let mut r: Vec<FsPath> = Vec::new();
    assert(path_views(r@) =~= to_read(dir@, all.take(0), there@.dom(), on_their_way@.dom()));
    for i in 0..rows.len()
        invariant
            all == entry_views(rows@),
            there.wf(),
            on_their_way.wf(),
            on_their_way@ == old(on_their_way)@,
            path_views(r@) == to_read(
                dir@,
                all.take(i as int),
                there@.dom(),
                on_their_way@.dom(),
            ),
    {
        let ghost before = path_views(r@);
        assert(all.take(i + 1).drop_last() =~= all.take(i as int));
        assert(all.take(i + 1).last() == rows@[i as int]@);
        let name = rows[i].name.as_str();
        if !names_parent(name) && is_image_file(name) {
            let p = dir.join(name);
            if !there.contains(&p) && !on_their_way.contains(&p) {
                r.push(p);
                assert(path_views(r@) =~= before.push(dir@.join(name@)));
            }
        }
    }
    assert(all.take(all.len() as int) =~= all);
    let ghost list = places(path_views(r@));
    assert(list.take(0).to_set() =~= Set::empty());
    for i in 0..r.len()
        invariant
            list == places(path_views(r@)),
            on_their_way.wf(),
            on_their_way@.dom() == old(on_their_way)@.dom().union(list.take(i as int).to_set()),
    {
        on_their_way.insert(&r[i], ());
        assert(list.take(i + 1) =~= list.take(i as int).push(list[i as int]));
        proof {
            pushing_adds_one(list.take(i as int), list[i as int]);
        }
        assert(on_their_way@.dom() =~= old(on_their_way)@.dom().union(list.take(i + 1).to_set()));
    }
    assert(list.take(list.len() as int) =~= list);
    r
}

/// A picture that is on its way is not asked for again: once what a listing asks for is noted,
/// the same listing asks for nothing.
pub proof fn a_picture_is_read_once(
    dir: PathView,
    rows: Seq<EntryView>,
    there: Set<PlaceView>,
    on_their_way: Set<PlaceView>,
)
    ensures
        to_read(
            dir,
            rows,
            there,
            on_their_way.union(places(to_read(dir, rows, there, on_their_way)).to_set()),
        ).len() == 0,
{
    assert(rows.take(rows.len() as int) =~= rows);
    nothing_left(dir, rows, there, on_their_way, rows);
}

/// The first rows of a listing ask for nothing that all rows have asked for.
proof fn nothing_left(
    dir: PathView,
    rows: Seq<EntryView>,
    there: Set<PlaceView>,
    on_their_way: Set<PlaceView>,
    first: Seq<EntryView>,
)
    requires
        first.len() <= rows.len(),
        first == rows.take(first.len() as int),
    ensures
        to_read(
            dir,
            first,
            there,
            on_their_way.union(places(to_read(dir, rows, there, on_their_way)).to_set()),
        ).len() == 0,
    decreases first.len(),
{
    if first.len() > 0 {
        let shorter = first.drop_last();
        assert(shorter =~= rows.take(shorter.len() as int));
        nothing_left(dir, rows, there, on_their_way, shorter);
        let p = dir.join(first.last().name);
        let asked = to_read(dir, rows, there, on_their_way);
        if !is_parent_row(first.last().name) && image_name(first.last().name) && !there.contains(
            p.place(),
        ) && !on_their_way.contains(p.place()) {
            let here = to_read(dir, first, there, on_their_way);
            assert(here.last() == p);
            asked_grows(dir, rows, there, on_their_way, first.len() as int);
            assert(here == asked.take(here.len() as int));
            assert(asked[here.len() - 1] == p);
            assert(places(asked)[here.len() - 1] == p.place());
            assert(places(asked).to_set().contains(p.place()));
        }
    }
}

/// What the first rows ask for is the first part of what all rows ask for.
proof fn asked_grows(
    dir: PathView,
    rows: Seq<EntryView>,
    there: Set<PlaceView>,
    on_their_way: Set<PlaceView>,
    n: int,
)
    requires
        0 <= n <= rows.len(),
    ensures
        ({
            let a = to_read(dir, rows.take(n), there, on_their_way);
            let b = to_read(dir, rows, there, on_their_way);
            a.len() <= b.len() && a == b.take(a.len() as int)
        }),
    decreases rows.len(),
{
    if n < rows.len() {
        asked_grows(dir, rows.drop_last(), there, on_their_way, n);
        assert(rows.drop_last().take(n) =~= rows.take(n));
        let a = to_read(dir, rows.take(n), there, on_their_way);
        let c = to_read(dir, rows.drop_last(), there, on_their_way);
        let b = to_read(dir, rows, there, on_their_way);
        assert(b.take(c.len() as int) =~= c);
        assert(b.take(a.len() as int) =~= c.take(a.len() as int));
    } else {
        assert(rows.take(n) =~= rows);
        let a = to_read(dir, rows, there, on_their_way);
        assert(a.take(a.len() as int) =~= a);
    }
}

/// A click on the header that a listing is sorted by turns the direction; one on another sorts by
/// that: names upwards, sizes and dates downwards.
pub proof fn a_header_sorts_by_its_column(ascending: bool, old_column: SortColumn, column: SortColumn)
    ensures
        header_clicked(SortState { column, ascending }, column) == (SortState {
            column,
            ascending: !ascending,
        }),
        old_column != column ==> header_clicked(
            SortState { column: old_column, ascending },
            column,
        ).column == column,
        old_column != SortColumn::Name ==> header_clicked(
            SortState { column: old_column, ascending },
            SortColumn::Name,
        ).ascending,
        old_column != SortColumn::Size ==> !header_clicked(
            SortState { column: old_column, ascending },
            SortColumn::Size,
        ).ascending,
        old_column != SortColumn::Date ==> !header_clicked(
            SortState { column: old_column, ascending },
            SortColumn::Date,
        ).ascending,
{
}

/// A row leads to the entry of its name, and the way up to the folder above.
pub proof fn a_row_leads_to_its_entry(dir: PathView, e: EntryView)
    ensures
        !crate::listing::shows_the_way_up(e) ==> (row_target(dir, e.name) matches Some(p) && p.names
            == dir.names.push(e.name) && p.prefix == dir.prefix && p.rooted == dir.rooted),
        crate::listing::shows_the_way_up(e) && dir.names.len() > 0 ==> (row_target(dir, e.name)
            matches Some(p) && p.names == dir.names.drop_last() && p.prefix == dir.prefix
            && p.rooted == dir.rooted),
        crate::listing::shows_the_way_up(e) && dir.names.len() == 0 ==> row_target(dir, e.name)
            is None,
{
    crate::listing::the_way_up_is_told_by_its_name(e);
    crate::paths::the_parent_has_all_names_but_the_last(dir);
}

/// Every row but the way up has a cell in the grid, in the order of the rows.
pub proof fn every_entry_has_a_cell(rows: Seq<EntryView>, e: EntryView)
    ensures
        cells(rows.push(e)) == if crate::listing::shows_the_way_up(e) {
            cells(rows)
        } else {
            cells(rows).push(e)
        },
        cells(Seq::empty()).len() == 0,
{
    crate::listing::the_way_up_is_told_by_its_name(e);
    assert(rows.push(e).drop_last() =~= rows);
}

/// A picture is read of each image that has none and none on its way, and of nothing else.
pub proof fn pictures_are_read_of_images(
    dir: PathView,
    rows: Seq<EntryView>,
    e: EntryView,
    there: Set<PlaceView>,
    on_their_way: Set<PlaceView>,
)
    ensures
        to_read(dir, rows.push(e), there, on_their_way) == if !crate::listing::shows_the_way_up(e)
            && image_name(e.name) && !there.contains(dir.join(e.name).place())
            && !on_their_way.contains(dir.join(e.name).place()) {
            to_read(dir, rows, there, on_their_way).push(dir.join(e.name))
        } else {
            to_read(dir, rows, there, on_their_way)
        },
        to_read(dir, Seq::empty(), there, on_their_way).len() == 0,
{
    crate::listing::the_way_up_is_told_by_its_name(e);
    assert(rows.push(e).drop_last() =~= rows);
}

/// What a drop would go to, what is selected and what is a folder can be told apart by its
/// background; what is on the clipboard is slanted unless a drop would go to it.
pub proof fn looks_can_be_told_apart(
    selected: bool,
    on_clipboard: bool,
    is_dir: bool,
    parent: bool,
    other: bool,
)
    ensures
        look_of(true, selected, on_clipboard, is_dir, parent).fill == look_of(
            true,
            other,
            false,
            false,
            other,
        ).fill,
        look_of(true, selected, on_clipboard, is_dir, parent).fill != look_of(
            false,
            true,
            on_clipboard,
            is_dir,
            parent,
        ).fill,
        look_of(false, true, on_clipboard, is_dir, parent).fill != look_of(
            false,
            false,
            on_clipboard,
            is_dir,
            parent,
        ).fill,
        look_of(false, false, on_clipboard, false, parent).fill is None,
        look_of(false, false, on_clipboard, true, false).fill is Some,
        look_of(false, selected, on_clipboard, is_dir, parent).italic == on_clipboard,
        !look_of(true, selected, on_clipboard, is_dir, parent).italic,
{
}

} // verus!
