//! Menus on rows and on the background, and the archives that they make.
use crate::copy_job::{name_or_empty, shown_name};
use crate::file_utils::{is_archive, is_archive_name, is_code_file, is_code_name, lower_extension};
use crate::listing::{is_parent_row, names_parent};
use crate::numerals::{decimal, to_decimal};
use crate::paths::{copy_paths, extension, extension_of, file_stem, path_views, stem_of};
use crate::paths::{FsPath, PathView};
use crate::path_keys::format_path_display;
use crate::text::{ascii_lower, copy_text, joined, text_eq, texts, to_ascii_lower};
use crate::text::with_replaced;
use vstd::prelude::*;

verus! {

// ---------------------------------------------------------------------------
// The menu of a row
// ---------------------------------------------------------------------------

/// An entry of a row's menu.
#[derive(Clone, Copy, PartialEq, Eq, Structural)]
pub enum RowAction {
    /// Have the shell ask which program is to open the file.
    OpenWith,
    OpenInNewTab,
    OpenWithCode,
    RunInPowerShell,
    InstallFont,
    /// Find and end the programs that hold the file.
    Unlock,
    ExtractHere,
    AddToArchive,
    CopyPath,
    Rename,
    Delete,
    Properties,
}

/// What an entry of a menu is about.
pub struct Subject {
    pub is_dir: bool,
    /// The row is the way up.
    pub parent: bool,
    pub code: bool,
    pub archive: bool,
    pub script: bool,
    pub font: bool,
}

/// Whether an extension in small letters is one of a font.
pub open spec fn is_font_extension(e: Seq<char>) -> bool {
    e == "ttf"@ || e == "otf"@ || e == "ttc"@
}

/// The extension of a path's name, with its plain letters small.
pub open spec fn plain_extension(p: PathView) -> Option<Seq<char>> {
    match p.file_name() {
        Some(n) => match extension_of(n) {
            Some(e) => Some(ascii_lower(e)),
            None => None,
        },
        None => None,
    }
}

/// The extension of a path's name in small letters.
pub open spec fn path_extension(p: PathView) -> Option<Seq<char>> {
    match p.file_name() {
        Some(n) => lower_extension(n),
        None => None,
    }
}

/// What the menu of the row `name` with the path `p` is about.
pub open spec fn subject_of(p: PathView, name: Seq<char>, is_dir: bool) -> Subject {
    let e = plain_extension(p);
    Subject {
        is_dir,
        parent: is_parent_row(name),
        code: is_code_name(path_extension(p)),
        archive: is_archive_name(path_extension(p)),
        script: e == Some("ps1"@),
        font: e is Some && is_font_extension(e->0),
    }
}

/// Looks at what the menu of a row is about.
pub fn examine(p: &FsPath, name: &str, is_dir: bool) -> (r: Subject)
    ensures
        r == subject_of(p@, name@, is_dir),
{
    let e: Option<String> = match p.file_name() {
        Some(n) => match extension(n.as_str()) {
            Some(e) => Some(to_ascii_lower(e.as_str())),
            None => None,
        },
        None => None,
    };
    let (script, font) = match &e {
        Some(e) => {
            let e = e.as_str();
            (text_eq(e, "ps1"), text_eq(e, "ttf") || text_eq(e, "otf") || text_eq(e, "ttc"))
        },
        None => (false, false),
    };
    let (code, archive) = match p.file_name() {
        Some(n) => (is_code_file(n.as_str()), is_archive(n.as_str())),
        None => (false, false),
    };
    Subject { is_dir, parent: names_parent(name), code, archive, script, font }
}

/// Whether an entry stands in the menu.
pub open spec fn is_offered(s: Subject, a: RowAction) -> bool {
    match a {
        RowAction::OpenWith => !s.is_dir,
        RowAction::OpenInNewTab => s.is_dir,
        RowAction::OpenWithCode => s.is_dir || s.code,
        RowAction::RunInPowerShell => s.script,
        RowAction::InstallFont => s.font && !s.is_dir,
        RowAction::Unlock => !s.is_dir,
        RowAction::ExtractHere => s.archive,
        RowAction::AddToArchive => true,
        RowAction::CopyPath => true,
        RowAction::Rename => !s.parent,
        RowAction::Delete => !s.parent,
        RowAction::Properties => true,
    }
}

/// All entries, as they stand below each other.
pub open spec fn all_actions() -> Seq<RowAction> {
    seq![
        RowAction::OpenWith,
        RowAction::OpenInNewTab,
        RowAction::OpenWithCode,
        RowAction::RunInPowerShell,
        RowAction::InstallFont,
        RowAction::Unlock,
        RowAction::ExtractHere,
        RowAction::AddToArchive,
        RowAction::CopyPath,
        RowAction::Rename,
        RowAction::Delete,
        RowAction::Properties,
    ]
}

/// The entries of `list` that stand in the menu.
pub open spec fn offered(s: Subject, list: Seq<RowAction>) -> Seq<RowAction>
    decreases list.len(),
{
    if list.len() == 0 {
        Seq::empty()
    } else if is_offered(s, list.last()) {
        offered(s, list.drop_last()).push(list.last())
    } else {
        offered(s, list.drop_last())
    }
}

/// Whether an entry stands in the menu.
fn offers(s: &Subject, a: RowAction) -> (r: bool)
    ensures
        r == is_offered(*s, a),
{
    match a {
        RowAction::OpenWith => !s.is_dir,
        RowAction::OpenInNewTab => s.is_dir,
        RowAction::OpenWithCode => s.is_dir || s.code,
        RowAction::RunInPowerShell => s.script,
        RowAction::InstallFont => s.font && !s.is_dir,
        RowAction::Unlock => !s.is_dir,
        RowAction::ExtractHere => s.archive,
        RowAction::AddToArchive => true,
        RowAction::CopyPath => true,
        RowAction::Rename => !s.parent,
        RowAction::Delete => !s.parent,
        RowAction::Properties => true,
    }
}

/// The entries of a row's menu, from top to bottom.
pub fn row_menu(s: &Subject) -> (r: Vec<RowAction>)
    ensures
        r@ == offered(*s, all_actions()),
{
    let all: Vec<RowAction> = vec![
        RowAction::OpenWith,
        RowAction::OpenInNewTab,
        RowAction::OpenWithCode,
        RowAction::RunInPowerShell,
        RowAction::InstallFont,
        RowAction::Unlock,
        RowAction::ExtractHere,
        RowAction::AddToArchive,
        RowAction::CopyPath,
        RowAction::Rename,
        RowAction::Delete,
        RowAction::Properties,
    ];
    assert(all@ =~= all_actions());
    let mut r: Vec<RowAction> = Vec::new();
    for i in 0..all.len()
        invariant
            r@ == offered(*s, all@.take(i as int)),
    {
        assert(all@.take(i + 1).drop_last() =~= all@.take(i as int));
        let a: RowAction = all[i];
        if offers(s, a) {
            r.push(a);
        }
    }
    assert(all@.take(all@.len() as int) =~= all@);
    r
}

/// The text of an entry.
pub open spec fn action_text(a: RowAction, p: PathView) -> Seq<char> {
    match a {
        RowAction::OpenWith => "Open with\u{2026}"@,
        RowAction::OpenInNewTab => "Open in a new tab"@,
        RowAction::OpenWithCode => "Open with VS Code"@,
        RowAction::RunInPowerShell => "\u{25B6} Run in PowerShell"@,
        RowAction::InstallFont => "Install font"@,
        RowAction::Unlock => "\u{1F513} Unlock\u{2026}"@,
        RowAction::ExtractHere => "Extract to ./"@ + bare_name(p),
        RowAction::AddToArchive => "Add to archive"@,
        RowAction::CopyPath => "\u{1F4CB} Copy full path"@,
        RowAction::Rename => "Rename"@,
        RowAction::Delete => "Delete"@,
        RowAction::Properties => "Properties"@,
    }
}

/// The name of a path without its extension; nothing where it has no name.
pub open spec fn bare_name(p: PathView) -> Seq<char> {
    match p.file_name() {
        Some(n) => stem_of(n),
        None => Seq::empty(),
    }
}

/// The name of a path without its extension.
pub fn name_without_extension(p: &FsPath) -> (r: String)
    ensures
        r@ == bare_name(p@),
{
    match p.file_name() {
        Some(n) => file_stem(n.as_str()),
        None => {
            let r = String::new();
            assert(r@ =~= Seq::empty());
            r
        },
    }
}

/// The text of an entry in the menu of the row with the path `p`.
pub fn action_label(a: RowAction, p: &FsPath) -> (r: String)
    ensures
        r@ == action_text(a, p@),
{
    match a {
        RowAction::OpenWith => copy_text("Open with\u{2026}"),
        RowAction::OpenInNewTab => copy_text("Open in a new tab"),
        RowAction::OpenWithCode => copy_text("Open with VS Code"),
        RowAction::RunInPowerShell => copy_text("\u{25B6} Run in PowerShell"),
        RowAction::InstallFont => copy_text("Install font"),
        RowAction::Unlock => copy_text("\u{1F513} Unlock\u{2026}"),
        RowAction::ExtractHere => joined("Extract to ./", name_without_extension(p).as_str()),
        RowAction::AddToArchive => copy_text("Add to archive"),
        RowAction::CopyPath => copy_text("\u{1F4CB} Copy full path"),
        RowAction::Rename => copy_text("Rename"),
        RowAction::Delete => copy_text("Delete"),
        RowAction::Properties => copy_text("Properties"),
    }
}

/// The path that a row's menu acts on: that of the tree where the menu was opened there, else
/// the row of the listing.
pub fn menu_path(tree_path: Option<&FsPath>, dir: &FsPath, name: &str) -> (r: FsPath)
    ensures
        r@ == match tree_path {
            Some(p) => p@,
            None => dir@.join(name@),
        },
{
    match tree_path {
        Some(p) => p.copy(),
        None => dir.join(name),
    }
}

/// What an entry for several files acts on: what was selected when the menu opened, or the row
/// itself where nothing was.
pub fn acted_on(selected: &Vec<FsPath>, row: &FsPath) -> (r: Vec<FsPath>)
    ensures
        path_views(r@) == if selected@.len() > 0 {
            path_views(selected@)
        } else {
            seq![row@]
        },
        r@.len() > 0,
{
    if selected.len() > 0 {
        let r = copy_paths(selected);
        assert(path_views(r@).len() == r@.len());
        assert(path_views(selected@).len() == selected@.len());
        r
    } else {
        let mut r: Vec<FsPath> = Vec::new();
        r.push(row.copy());
        assert(path_views(r@) =~= seq![row@]);
        r
    }
}

/// A path as it is put on the clipboard: with plain slashes.
pub fn path_for_clipboard(p: &FsPath) -> (r: String)
    ensures
        r@ == with_replaced(p@.written(), '\\', '/'),
{
    format_path_display(p.to_text().as_str())
}

/// The way up can neither be renamed nor deleted.
pub proof fn the_way_up_is_left_alone(p: PathView, name: Seq<char>, is_dir: bool)
    requires
        is_parent_row(name),
    ensures
        !is_offered(subject_of(p, name, is_dir), RowAction::Rename),
        !is_offered(subject_of(p, name, is_dir), RowAction::Delete),
{
}

/// An entry stands in the menu if and only if it is offered.
pub proof fn the_menu_holds_what_is_offered(s: Subject, a: RowAction)
    ensures
        offered(s, all_actions()).contains(a) <==> is_offered(s, a),
{
    let all = all_actions();
    assert(all.contains(a)) by {
        let k: int = match a {
            RowAction::OpenWith => 0,
            RowAction::OpenInNewTab => 1,
            RowAction::OpenWithCode => 2,
            RowAction::RunInPowerShell => 3,
            RowAction::InstallFont => 4,
            RowAction::Unlock => 5,
            RowAction::ExtractHere => 6,
            RowAction::AddToArchive => 7,
            RowAction::CopyPath => 8,
            RowAction::Rename => 9,
            RowAction::Delete => 10,
            RowAction::Properties => 11,
        };
        assert(all[k] == a);
    }
    offered_from(s, all, a);
}

/// The menu holds the offered entries of a list.
proof fn offered_from(s: Subject, list: Seq<RowAction>, a: RowAction)
    ensures
        offered(s, list).contains(a) <==> list.contains(a) && is_offered(s, a),
    decreases list.len(),
{
    if list.len() > 0 {
        let before = list.drop_last();
        offered_from(s, before, a);
        let o = offered(s, before);
        if before.contains(a) {
            assert(list[before.index_of(a)] == a);
        }
        if list.contains(a) && a != list.last() {
            let k = list.index_of(a);
            assert(before[k] == a);
        }
        assert(list[list.len() - 1] == list.last());
        if o.contains(a) {
            assert(o.push(list.last())[o.index_of(a)] == a);
        }
        assert(o.push(list.last())[o.len() as int] == list.last());
        if o.push(list.last()).contains(a) && a != list.last() {
            let k = o.push(list.last()).index_of(a);
            assert(o[k] == a);
        }
    }
}

// ---------------------------------------------------------------------------
// The menu of the background
// ---------------------------------------------------------------------------

/// An entry of the background's menu.
#[derive(Clone, Copy, PartialEq, Eq, Structural)]
pub enum BackgroundAction {
    NewFolder,
    NewTextFile,
    Refresh,
    UndoDelete,
}

/// The entries of the background's menu: the last one only where something was deleted.
pub fn background_menu(can_undo: bool) -> (r: Vec<BackgroundAction>)
    ensures
        r@ == if can_undo {
            seq![
                BackgroundAction::NewFolder,
                BackgroundAction::NewTextFile,
                BackgroundAction::Refresh,
                BackgroundAction::UndoDelete,
            ]
        } else {
            seq![
                BackgroundAction::NewFolder,
                BackgroundAction::NewTextFile,
                BackgroundAction::Refresh,
            ]
        },
{
    let mut r: Vec<BackgroundAction> = vec![
        BackgroundAction::NewFolder,
        BackgroundAction::NewTextFile,
        BackgroundAction::Refresh,
    ];
    if can_undo {
        r.push(BackgroundAction::UndoDelete);
    }
    assert(r@ =~= if can_undo {
        seq![
            BackgroundAction::NewFolder,
            BackgroundAction::NewTextFile,
            BackgroundAction::Refresh,
            BackgroundAction::UndoDelete,
        ]
    } else {
        seq![BackgroundAction::NewFolder, BackgroundAction::NewTextFile, BackgroundAction::Refresh]
    });
    r
}

/// The text of an entry of the background's menu.
pub fn background_label(a: BackgroundAction) -> (r: &'static str)
    ensures
        r@ == match a {
            BackgroundAction::NewFolder => "\u{1F4C1}  New folder"@,
            BackgroundAction::NewTextFile => "\u{1F4C4}  New text file"@,
            BackgroundAction::Refresh => "\u{21BB}  Refresh"@,
            BackgroundAction::UndoDelete => "\u{21A9}  Undo delete"@,
        },
{
    match a {
        BackgroundAction::NewFolder => "\u{1F4C1}  New folder",
        BackgroundAction::NewTextFile => "\u{1F4C4}  New text file",
        BackgroundAction::Refresh => "\u{21BB}  Refresh",
        BackgroundAction::UndoDelete => "\u{21A9}  Undo delete",
    }
}

// ---------------------------------------------------------------------------
// Archives
// ---------------------------------------------------------------------------

/// The format of an archive.
#[derive(Clone, Copy, PartialEq, Eq, Structural)]
pub enum ArchiveFormat {
    SevenZip,
    Zip,
}

/// How hard an archive is compressed.
#[derive(Clone, Copy, PartialEq, Eq, Structural)]
pub enum Compression {
    Store,
    Medium,
    High,
}

/// The extension of an archive.
pub open spec fn format_extension(f: ArchiveFormat) -> Seq<char> {
    match f {
        ArchiveFormat::SevenZip => "7z"@,
        ArchiveFormat::Zip => "zip"@,
    }
}

/// The name of the archive called `name`.
pub fn archive_file_name(name: &str, f: ArchiveFormat) -> (r: String)
    ensures
        r@ == name@ + "."@ + format_extension(f),
{
    joined(
        joined(name, ".").as_str(),
        match f {
            ArchiveFormat::SevenZip => "7z",
            ArchiveFormat::Zip => "zip",
        },
    )
}

/// The arguments of the packing program that put `files` into the archive at `archive`.
pub open spec fn packing_arguments(
    archive: PathView,
    f: ArchiveFormat,
    c: Compression,
    files: Seq<PathView>,
) -> Seq<Seq<char>> {
    seq![
        "a"@,
        match f {
            ArchiveFormat::SevenZip => "-t7z"@,
            ArchiveFormat::Zip => "-tzip"@,
        },
        match c {
            Compression::Store => "-mx0"@,
            Compression::Medium => "-mx5"@,
            Compression::High => "-mx9"@,
        },
        archive.written(),
    ] + files.map_values(|p: PathView| p.written())
}

/// The arguments of the packing program that put `files` into the archive at `archive`.
pub fn pack(archive: &FsPath, f: ArchiveFormat, c: Compression, files: &Vec<FsPath>) -> (r: Vec<
    String,
>)
    ensures
        texts(r@) == packing_arguments(archive@, f, c, path_views(files@)),
{
    let mut r: Vec<String> = Vec::new();
    r.push(copy_text("a"));
    r.push(
        copy_text(
            match f {
                ArchiveFormat::SevenZip => "-t7z",
                ArchiveFormat::Zip => "-tzip",
            },
        ),
    );
    r.push(
        copy_text(
            match c {
                Compression::Store => "-mx0",
                Compression::Medium => "-mx5",
                Compression::High => "-mx9",
            },
        ),
    );
    r.push(archive.to_text());
    let ghost head = texts(r@);
    let ghost all = path_views(files@).map_values(|p: PathView| p.written());
    assert(head + all.take(0) =~= head);
    for i in 0..files.len()
        invariant
            all == path_views(files@).map_values(|p: PathView| p.written()),
            texts(r@) == head + all.take(i as int),
    {
        let ghost before = texts(r@);
        r.push(files[i].to_text());
        assert(texts(r@) =~= before.push(all[i as int]));
        assert(texts(r@) =~= head + all.take(i + 1));
    }
    assert(all.take(all.len() as int) =~= all);
    assert(texts(r@) =~= packing_arguments(archive@, f, c, path_views(files@)));
    r
}

/// How many files go into an archive.
pub fn pack_summary(count: usize) -> (r: String)
    ensures
        r@ == decimal(count as nat) + " "@ + (if count == 1 {
            "item"@
        } else {
            "items"@
        }) + " to archive"@,
{
    let noun = if count == 1 {
        "item"
    } else {
        "items"
    };
    let n = to_decimal(count as u64);
    joined(joined(joined(n.as_str(), " ").as_str(), noun).as_str(), " to archive")
}

/// Where the archive `archive` is unpacked in the folder `dir`: in a folder of its own.
pub fn unpacked_folder(dir: &FsPath, archive: &FsPath) -> (r: FsPath)
    ensures
        r@ == dir@.join(bare_name(archive@)),
{
    dir.join(name_without_extension(archive).as_str())
}

/// The arguments of the packing program that unpack `archive` into `dest`.
pub fn unpack(archive: &FsPath, dest: &FsPath) -> (r: Vec<String>)
    ensures
        texts(r@) == seq!["x"@, archive@.written(), "-o"@ + dest@.written()],
{
    let mut r: Vec<String> = Vec::new();
    r.push(copy_text("x"));
    r.push(archive.to_text());
    r.push(joined("-o", dest.to_text().as_str()));
    assert(texts(r@) =~= seq!["x"@, archive@.written(), "-o"@ + dest@.written()]);
    r
}

/// What is shown while `archive` is unpacked.
pub fn unpack_status(archive: &FsPath) -> (r: String)
    ensures
        r@ == "Extracting "@ + shown_name(archive@) + "\u{2026}"@,
{
    joined(joined("Extracting ", name_or_empty(archive).as_str()).as_str(), "\u{2026}")
}

// ---------------------------------------------------------------------------
// Programs that hold a file
// ---------------------------------------------------------------------------

/// The line of a program that holds a file.
pub fn holder_line(pid: u32, name: &str) -> (r: String)
    ensures
        r@ == "  \u{2022} "@ + name@ + " (PID "@ + decimal(pid as nat) + ")"@,
{
    let s = joined(joined("  \u{2022} ", name).as_str(), " (PID ");
    joined(joined(s.as_str(), to_decimal(pid as u64).as_str()).as_str(), ")")
}

/// What a menu is about is told by the name of the entry: by what stands behind its last dot, with
/// its letters small.
pub proof fn a_menu_goes_by_the_extension(
    dir: PathView,
    stem: Seq<char>,
    ext: Seq<char>,
    row: crate::types::EntryView,
)
    requires
        stem.len() > 0,
        ext.len() > 0,
        forall|i: int| 0 <= i < ext.len() ==> #[trigger] ext[i] != '.',
    ensures
        ({
            let p = dir.join(stem + seq!['.'] + ext);
            let s = subject_of(p, row.name, row.is_dir);
            &&& s.is_dir == row.is_dir
            &&& s.parent == crate::listing::shows_the_way_up(row)
            &&& s.script <==> ascii_lower(ext) == "ps1"@
            &&& s.font <==> ascii_lower(ext) == "ttf"@ || ascii_lower(ext) == "otf"@ || ascii_lower(
                ext,
            ) == "ttc"@
            &&& s.code == crate::file_utils::is_code_extension(crate::text::lowercase(ext))
            &&& s.archive == crate::file_utils::is_archive_extension(crate::text::lowercase(ext))
            &&& bare_name(p) == stem
            &&& action_text(RowAction::ExtractHere, p) == "Extract to ./"@ + stem
        }),
        ({
            let s = subject_of(dir.join(ext), row.name, row.is_dir);
            !s.script && !s.font && !s.code && !s.archive && bare_name(dir.join(ext)) == ext
        }),
{
    let name = stem + seq!['.'] + ext;
    crate::listing::the_way_up_is_told_by_its_name(row);
    crate::paths::the_last_dot_splits_a_name(stem, ext);
    crate::paths::an_entry_has_the_names_of_its_folder(dir, name);
    crate::paths::an_entry_has_the_names_of_its_folder(dir, ext);
    assert(ext[ext.len() - 1] != '.');
    assert(name.last() == ext.last());
    assert(name != seq!['.'] && name != seq!['.', '.']);
    assert(ext != seq!['.'] && ext != seq!['.', '.']);
}

/// A menu offers what can be done: folders open in tabs and files with programs; scripts run, fonts
/// are installed and archives unpacked; everything can be packed, and everything but the way up
/// renamed and deleted.
pub proof fn a_menu_offers_what_can_be_done(s: Subject)
    ensures
        is_offered(s, RowAction::OpenInNewTab) != is_offered(s, RowAction::OpenWith),
        is_offered(s, RowAction::OpenInNewTab) == s.is_dir,
        is_offered(s, RowAction::Unlock) == is_offered(s, RowAction::OpenWith),
        s.is_dir || s.code ==> is_offered(s, RowAction::OpenWithCode),
        !s.is_dir && !s.code ==> !is_offered(s, RowAction::OpenWithCode),
        is_offered(s, RowAction::RunInPowerShell) == s.script,
        is_offered(s, RowAction::InstallFont) ==> s.font && !s.is_dir,
        s.font && !s.is_dir ==> is_offered(s, RowAction::InstallFont),
        is_offered(s, RowAction::ExtractHere) == s.archive,
        is_offered(s, RowAction::AddToArchive),
        is_offered(s, RowAction::CopyPath),
        is_offered(s, RowAction::Properties),
        is_offered(s, RowAction::Rename) == !s.parent,
        is_offered(s, RowAction::Delete) == !s.parent,
{
}

/// The packing program is told to add, the format, the compression, the archive and then every
/// file, each by its whole path and in its order; formats and compressions are told apart.
pub proof fn every_file_is_packed(
    archive: PathView,
    f: ArchiveFormat,
    c: Compression,
    files: Seq<PathView>,
    i: int,
)
    ensures
        packing_arguments(archive, f, c, files).len() == 4 + files.len(),
        packing_arguments(archive, f, c, files)[3] == archive.written(),
        0 <= i < files.len() ==> packing_arguments(archive, f, c, files)[4 + i]
            == files[i].written(),
        packing_arguments(archive, ArchiveFormat::Zip, c, files)[1] != packing_arguments(
            archive,
            ArchiveFormat::SevenZip,
            c,
            files,
        )[1],
        packing_arguments(archive, f, Compression::Store, files)[2] != packing_arguments(
            archive,
            f,
            Compression::Medium,
            files,
        )[2],
        packing_arguments(archive, f, Compression::Medium, files)[2] != packing_arguments(
            archive,
            f,
            Compression::High,
            files,
        )[2],
        packing_arguments(archive, f, Compression::Store, files)[2] != packing_arguments(
            archive,
            f,
            Compression::High,
            files,
        )[2],
{
    reveal_strlit("-t7z");
    reveal_strlit("-tzip");
    reveal_strlit("-mx0");
    reveal_strlit("-mx5");
    reveal_strlit("-mx9");
    assert("-t7z"@.len() != "-tzip"@.len());
    assert("-mx0"@[3] == '0');
    assert("-mx5"@[3] == '5');
    assert("-mx9"@[3] == '9');
}

/// What is packed here can be unpacked here, into a folder of the archive's name.
pub proof fn what_is_packed_can_be_unpacked(dir: PathView, name: Seq<char>, f: ArchiveFormat)
    requires
        name.len() > 0,
    ensures
        crate::file_utils::is_archive_extension(format_extension(f)),
        bare_name(dir.join(name + "."@ + format_extension(f))) == name,
{
    reveal_strlit("7z");
    reveal_strlit("zip");
    reveal_strlit(".");
    let ext = format_extension(f);
    let whole = name + seq!['.'] + ext;
    assert(name + "."@ + ext =~= whole);
    crate::paths::the_last_dot_splits_a_name(name, ext);
    crate::paths::an_entry_has_the_names_of_its_folder(dir, whole);
    assert(whole.last() == ext.last());
    assert(whole != seq!['.'] && whole != seq!['.', '.']);
}

} // verus!
