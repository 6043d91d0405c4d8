//! The data types that the parts of the explorer share.
use crate::paths::{path_views, FsPath, PathView};
use crate::paths::copy_paths;
use crate::text::copy_text;
use vstd::prelude::*;

verus! {

/// A color by its red, green and blue parts.
#[derive(Clone, Copy, PartialEq, Eq, Structural)]
pub struct Rgb {
    pub r: u8,
    pub g: u8,
    pub b: u8,
}

/// The column that a listing is sorted by.
#[derive(Clone, Copy, PartialEq, Eq, Structural)]
pub enum SortColumn {
    Name,
    Size,
    Date,
}

/// Whether files on the clipboard are copied or moved.
#[derive(Clone, Copy, PartialEq, Eq, Structural)]
pub enum ClipboardMode {
    Copy,
    Cut,
}

/// The column of a listing that nobody sorted.
pub fn default_sort_column() -> (r: SortColumn)
    ensures
        r == SortColumn::Name,
{
    SortColumn::Name
}

/// The direction of a listing that nobody sorted.
pub fn default_sort_ascending() -> (r: bool)
    ensures
        r,
{
    true
}

// ---------------------------------------------------------------------------
// Drives
// ---------------------------------------------------------------------------

/// The kind of a drive.
#[derive(Clone, Copy, PartialEq, Eq, Structural)]
pub enum DriveKind {
    Ssd,
    Hdd,
    /// A USB stick or a memory card.
    Removable,
    Network,
    CdRom,
    Unknown,
}

impl DriveKind {
    /// The label of a kind.
    pub open spec fn label_text(self) -> Seq<char> {
        match self {
            DriveKind::Ssd => "SSD"@,
            DriveKind::Hdd => "HDD"@,
            DriveKind::Removable => "USB"@,
            DriveKind::Network => "Network"@,
            DriveKind::CdRom => "CD-ROM"@,
            DriveKind::Unknown => "Unknown"@,
        }
    }

    /// The label of the kind.
    pub fn label(self) -> (r: &'static str)
        ensures
            r@ == self.label_text(),
    {
        match self {
            DriveKind::Ssd => "SSD",
            DriveKind::Hdd => "HDD",
            DriveKind::Removable => "USB",
            DriveKind::Network => "Network",
            DriveKind::CdRom => "CD-ROM",
            DriveKind::Unknown => "Unknown",
        }
    }

    /// The color of the kind's border; none for a drive of no known kind.
    pub fn color(self) -> (r: Option<Rgb>)
        ensures
            r == match self {
                DriveKind::Ssd => Some(Rgb { r: 0, g: 130, b: 0 }),
                DriveKind::Hdd => Some(Rgb { r: 130, g: 130, b: 130 }),
                DriveKind::Removable => Some(Rgb { r: 220, g: 150, b: 170 }),
                DriveKind::Network => Some(Rgb { r: 100, g: 160, b: 220 }),
                DriveKind::CdRom => Some(Rgb { r: 200, g: 160, b: 80 }),
                DriveKind::Unknown => None,
            },
    {
        match self {
            DriveKind::Ssd => Some(Rgb { r: 0, g: 130, b: 0 }),
            DriveKind::Hdd => Some(Rgb { r: 130, g: 130, b: 130 }),
            DriveKind::Removable => Some(Rgb { r: 220, g: 150, b: 170 }),
            DriveKind::Network => Some(Rgb { r: 100, g: 160, b: 220 }),
            DriveKind::CdRom => Some(Rgb { r: 200, g: 160, b: 80 }),
            DriveKind::Unknown => None,
        }
    }
}

// ---------------------------------------------------------------------------
// Entries of a listing
// ---------------------------------------------------------------------------

/// One row of a listing. The time is in nanoseconds since the start of 1970.
pub struct FileEntry {
    pub name: String,
    pub is_dir: bool,
    pub modified: Option<i128>,
}

/// The view of a `FileEntry`.
#[verifier::ext_equal]
pub struct EntryView {
    pub name: Seq<char>,
    pub is_dir: bool,
    pub modified: Option<i128>,
}

impl View for FileEntry {
    type V = EntryView;

    open spec fn view(&self) -> EntryView {
        EntryView { name: self.name@, is_dir: self.is_dir, modified: self.modified }
    }
}

impl FileEntry {
    /// A fresh copy.
    pub fn copy(&self) -> (r: FileEntry)
        ensures
            r@ == self@,
    {
        FileEntry {
            name: copy_text(self.name.as_str()),
            is_dir: self.is_dir,
            modified: self.modified,
        }
    }
}

/// The views of a list of entries.
pub open spec fn entry_views(v: Seq<FileEntry>) -> Seq<EntryView> {
    Seq::new(v.len(), |i: int| v[i]@)
}

// ---------------------------------------------------------------------------
// Tabs
// ---------------------------------------------------------------------------

/// What one tab shows: only what is kept while another tab is open.
pub struct TabState {
    pub path: FsPath,
    pub back_history: Vec<FsPath>,
    pub forward_history: Vec<FsPath>,
    pub filter: String,
    pub sort_column: SortColumn,
    pub sort_ascending: bool,
}

/// The view of a `TabState`.
#[verifier::ext_equal]
pub struct TabView {
    pub path: PathView,
    pub back_history: Seq<PathView>,
    pub forward_history: Seq<PathView>,
    pub filter: Seq<char>,
    pub sort_column: SortColumn,
    pub sort_ascending: bool,
}

impl View for TabState {
    type V = TabView;

    open spec fn view(&self) -> TabView {
        TabView {
            path: self.path@,
            back_history: path_views(self.back_history@),
            forward_history: path_views(self.forward_history@),
            filter: self.filter@,
            sort_column: self.sort_column,
            sort_ascending: self.sort_ascending,
        }
    }
}

/// A tab on `path` without a history.
pub open spec fn fresh_tab(path: PathView) -> TabView {
    TabView {
        path,
        back_history: Seq::empty(),
        forward_history: Seq::empty(),
        filter: Seq::empty(),
        sort_column: SortColumn::Name,
        sort_ascending: true,
    }
}

/// The views of a list of tabs.
pub open spec fn tab_views(v: Seq<TabState>) -> Seq<TabView> {
    Seq::new(v.len(), |i: int| v[i]@)
}

impl TabState {
    /// A tab on `path` without a history.
    pub fn new(path: FsPath) -> (r: TabState)
        ensures
            r@ == fresh_tab(path@),
    {
        let r = TabState {
            path,
            back_history: Vec::new(),
            forward_history: Vec::new(),
            filter: String::new(),
            sort_column: SortColumn::Name,
            sort_ascending: true,
        };
        assert(r@ =~= fresh_tab(path@));
        r
    }

    /// A fresh copy.
    pub fn copy(&self) -> (r: TabState)
        ensures
            r@ == self@,
    {
        TabState {
            path: self.path.copy(),
            back_history: copy_paths(&self.back_history),
            forward_history: copy_paths(&self.forward_history),
            filter: copy_text(self.filter.as_str()),
            sort_column: self.sort_column,
            sort_ascending: self.sort_ascending,
        }
    }

    /// What the tab is labelled with: its folder's name, or the whole path
    /// where it has none.
    pub fn label(&self) -> (r: String)
        ensures
            r@ == match self@.path.file_name() {
                Some(n) => n,
                None => self@.path.written(),
            },
    {
        match self.path.file_name() {
            Some(n) => n,
            None => self.path.to_text(),
        }
    }
}

/// Kinds of drives can be told apart by their labels.
pub proof fn kinds_of_drives_can_be_told_apart(a: DriveKind, b: DriveKind)
    requires
        a.label_text() == b.label_text(),
    ensures
        a == b,
{
    reveal_strlit("SSD");
    reveal_strlit("HDD");
    reveal_strlit("USB");
    reveal_strlit("Network");
    reveal_strlit("CD-ROM");
    reveal_strlit("Unknown");
    assert("SSD"@[0] == 'S' && "HDD"@[0] == 'H' && "USB"@[0] == 'U' && "USB"@[1] == 'S');
    assert("Network"@[0] == 'N' && "CD-ROM"@[0] == 'C' && "Unknown"@[0] == 'U' && "Unknown"@[1]
        == 'n');
}

} // verus!
