//! Working in the list: selection, keys, the clipboard, drags, menus and dialogs.
use rusplorer::clipboard::{hold_same, FileClipboard};
use rusplorer::copy_job::{ConflictChoice, CopyJobState};
use rusplorer::file_drag::{hover_tab, move_here_label, Drop, FileDrag, RowPointer, TabHover};
use rusplorer::job_panel::{
    age_text, choice_label, conflict_choices, conflict_line, conflict_title, error_line, harvest,
    job_title, queued_line, redraw_after, skipped_line,
};
use rusplorer::keys::{file_keys, window_commands, KeyWatch, WindowKeys};
use rusplorer::list_view::{
    activate, cell_fill, cell_picture, cells_of, click_header, follow, header_text,
    is_target_row, pictures_to_read, row_look, row_path, show_dates, size_cell, Activation,
    CellPicture, Ink, SizeCell, SortState,
};
use rusplorer::menus::{
    acted_on, action_label, archive_file_name, background_label, background_menu, examine,
    holder_line, menu_path, pack, pack_summary, path_for_clipboard, row_menu, unpack,
    unpack_status, unpacked_folder, ArchiveFormat, BackgroundAction, Compression, RowAction,
};
use rusplorer::names::NameSet;
use rusplorer::paths::{FsPath, PathMap, PathPrefix};
use rusplorer::rename::{new_item_name, row_to_rename, NameDialog, Naming};
use rusplorer::selection::{band_step, Selection};
use rusplorer::shortcuts::{is_shortcut, names_shortcut, shortcut_path, shortcut_target};
use rusplorer::types::{FileEntry, Rgb, SortColumn};
use rusplorer::undo::{
    after_attempt, delete_status, find_moved, nothing_to_move_back, plan_way_back,
    start_delete_job, undo_delete_result, undo_delete_unsupported, undo_rename_failed,
    way_back_blocked, DeleteStage,
};

/// The path that is written as `s`, such as `C:\a\b`.
fn p(s: &str) -> FsPath {
    let mut rest = s;
    let mut prefix = PathPrefix::Bare;
    let bytes = s.as_bytes();
    if bytes.len() >= 2 && bytes[1] == b':' {
        prefix = PathPrefix::Disk(bytes[0]);
        rest = &s[2..];
    }
    let rooted = rest.starts_with('\\');
    let names = rest.split('\\').filter(|n| !n.is_empty()).map(|n| n.to_string()).collect();
    FsPath::plain(prefix, rooted, names)
}

fn rows(names: &[&str]) -> Vec<FileEntry> {
    names
        .iter()
        .map(|n| FileEntry { name: n.to_string(), is_dir: false, modified: None })
        .collect()
}

fn selected(s: &Selection) -> Vec<String> {
    let mut v: Vec<String> = (0..s.names.len()).map(|i| s.names.name_at(i).clone()).collect();
    v.sort();
    v
}

const LIST: [&str; 5] = ["[..] Parent Directory", "a", "b", "c", "d"];

#[test]
fn clicks_select_single_rows_and_toggle() {
    let list = rows(&LIST);
    let mut s = Selection::new();
    s.click(&list, "a", false, false);
    s.click(&list, "c", true, false);
    assert_eq!(selected(&s), vec!["a", "c"]);
    s.click(&list, "c", true, false);
    assert_eq!(selected(&s), vec!["a"]);
    s.click(&list, "d", false, false);
    assert_eq!(selected(&s), vec!["d"]);
    s.clear();
    assert!(selected(&s).is_empty());
}

#[test]
fn ranges_reach_both_ends_and_can_be_drawn_again() {
    let list = rows(&LIST);
    let mut s = Selection::new();
    s.click(&list, "c", false, true);
    assert_eq!(selected(&s), vec!["c"]);
    s.click(&list, "[..] Parent Directory", false, true);
    assert_eq!(selected(&s), vec!["a", "b", "c"]);
    s.click(&list, "d", false, true);
    assert_eq!(selected(&s), vec!["c", "d"]);
    s.click(&list, "b", true, true);
    assert_eq!(selected(&s), vec!["b", "c", "d"]);
    s.click(&list, "gone", false, true);
    assert_eq!(selected(&s), vec!["b", "c", "d"]);
}

#[test]
fn cells_are_selected_much_like_rows() {
    let cells = cells_of(&rows(&LIST));
    assert_eq!(cells.len(), 4);
    let mut s = Selection::new();
    s.click_cell(&cells, "b", false, false);
    s.click_cell(&cells, "d", false, true);
    assert_eq!(selected(&s), vec!["b", "c", "d"]);
    s.click_cell(&cells, "a", false, true);
    assert_eq!(selected(&s), vec!["a", "b", "c", "d"]);
    s.click_cell(&cells, "a", true, true);
    assert_eq!(selected(&s), vec!["b", "c", "d"]);
}

#[test]
fn everything_but_the_way_up_is_selected() {
    let mut s = Selection::new();
    s.select_all(&rows(&LIST));
    assert_eq!(selected(&s), vec!["a", "b", "c", "d"]);
    s.select_all(&Vec::new());
    assert!(selected(&s).is_empty());
}

#[test]
fn a_rectangle_selects_what_it_touches() {
    let mut s = Selection::new();
    let before = NameSet::of("z");
    let touched = vec!["a".to_string(), "[..] Parent Directory".to_string()];
    s.band(&before, false, &touched);
    assert_eq!(selected(&s), vec!["a"]);
    s.band(&before, true, &touched);
    assert_eq!(selected(&s), vec!["a", "z"]);
    s.right_click("a");
    assert_eq!(selected(&s), vec!["a", "z"]);
    s.right_click("q");
    assert_eq!(selected(&s), vec!["q"]);
    let paths = s.paths_in(&p("C:\\d"));
    assert_eq!(paths[0].to_text(), "C:\\d\\q");
    s.select_pasted(&Vec::new());
    assert_eq!(selected(&s), vec!["q"]);
    s.select_pasted(&vec!["n".to_string(), "m".to_string()]);
    assert_eq!(selected(&s), vec!["m", "n"]);
}

#[test]
fn a_key_acts_when_it_goes_down() {
    let mut w = KeyWatch::new();
    let c = file_keys(true, true, false, false, false);
    assert!(w.look(c, true).copy);
    assert!(!w.look(c, true).copy);
    w.look(file_keys(false, true, false, false, false), true);
    assert!(!w.look(c, false).copy);
    assert!(!w.look(c, true).copy);
    w.look(file_keys(false, false, false, false, false), true);
    let both = w.look(file_keys(true, true, true, false, true), true);
    assert!(both.cut && !both.copy && both.delete && !both.paste);
}

#[test]
fn what_was_cut_is_pasted_once() {
    let mut c = FileClipboard::new();
    c.take(vec![p("C:\\a"), p("C:\\b")], true);
    let paste = c.paste(vec![p("C:\\b"), p("C:\\a")], false).unwrap();
    assert!(paste.is_move);
    assert_eq!(paste.files[0].to_text(), "C:\\a");
    assert!(c.paste(Vec::new(), false).is_none());
}

#[test]
fn what_was_copied_is_pasted_again() {
    let mut c = FileClipboard::new();
    c.take(vec![p("C:\\a")], false);
    c.take(Vec::new(), true);
    assert!(!c.paste(Vec::new(), false).unwrap().is_move);
    assert!(!c.paste(Vec::new(), false).unwrap().is_move);
}

#[test]
fn newer_files_of_others_are_pasted_first() {
    let mut c = FileClipboard::new();
    c.take(vec![p("C:\\a")], true);
    let paste = c.paste(vec![p("C:\\a"), p("C:\\a")], false).unwrap();
    assert!(!paste.is_move);
    assert_eq!(paste.files.len(), 2);
    assert_eq!(c.files.len(), 2);
    let paste = c.paste(vec![p("D:\\x")], true).unwrap();
    assert!(paste.is_move);
    assert!(c.files.is_empty() && c.mode.is_none());
    assert!(hold_same(&vec![p("C:\\a"), p("C:\\b")], &vec![p("C:\\b"), p("C:\\a")]));
    assert!(!hold_same(&vec![p("C:\\a"), p("C:\\a")], &vec![p("C:\\b"), p("C:\\a")]));
}

fn held() -> RowPointer {
    RowPointer { over: true, held: true, right_held: false, far: false, banding: false, incoming: false }
}

fn start_drag(names: &[&str], right: bool) -> (FileDrag, Selection) {
    let mut d = FileDrag::new();
    let mut s = Selection::new();
    let list = rows(&LIST);
    for n in names {
        s.click(&list, n, true, false);
    }
    let at = RowPointer { right_held: right, ..held() };
    d.touch(names[0], at);
    assert!(!d.begin(names[0], false, at, &p("C:\\d"), &mut s));
    assert!(d.begin(names[0], false, RowPointer { far: true, ..at }, &p("C:\\d"), &mut s));
    (d, s)
}

#[test]
fn a_drag_takes_what_is_selected() {
    let (d, _) = start_drag(&["a", "b"], false);
    assert_eq!(d.sources.len(), 2);
    assert_eq!(d.label, "\u{1F4E6} 2 items");
    let (d, _) = start_drag(&["a"], true);
    assert_eq!(d.label, "\u{1F4C4} a  [Move / Copy / Shortcut]");
    let mut d = FileDrag::new();
    let mut s = Selection::new();
    d.touch("x", held());
    assert!(d.begin("x", true, RowPointer { far: true, ..held() }, &p("C:\\d"), &mut s));
    assert_eq!(d.label, "\u{1F4C1} x");
    assert_eq!(selected(&s), vec!["x"]);
    let mut d = FileDrag::new();
    d.touch("[..] Parent Directory", held());
    assert!(d.pressed.is_none());
    d.touch("a", held());
    d.touch("a", RowPointer { held: false, ..held() });
    assert!(d.pressed.is_none());
}

#[test]
fn a_drop_moves_into_the_folder_below() {
    let (mut d, _) = start_drag(&["a"], false);
    assert!(!d.hover(&p("C:\\d\\a"), true));
    assert!(d.hover(&p("C:\\t"), true));
    match d.release(None, true, &p("C:\\d"), true) {
        Drop::Move { sources, dest, show_tab } => {
            assert_eq!(sources[0].to_text(), "C:\\d\\a");
            assert_eq!(dest.to_text(), "C:\\t");
            assert_eq!(show_tab, None);
        }
        _ => panic!("files are moved"),
    }
    assert!(!d.active && d.quiet == 2);
    d.touch("b", held());
    assert!(d.pressed.is_none());
    d.next_frame();
    d.touch("b", held());
    assert!(d.pressed.is_none());
    d.next_frame();
    d.touch("b", held());
    assert_eq!(d.pressed.as_deref(), Some("b"));
}

#[test]
fn a_drop_with_the_right_button_asks() {
    let (mut d, _) = start_drag(&["a"], true);
    d.hover(&p("C:\\t"), true);
    d.next_frame();
    assert!(d.shown_target.is_some() && d.target.is_none());
    match d.release(Some((3, &p("C:\\tab"))), true, &p("C:\\d"), true) {
        Drop::Ask { dest, .. } => assert_eq!(dest.to_text(), "C:\\tab"),
        _ => panic!("the user is asked"),
    }
}

#[test]
fn a_folder_dropped_on_itself_stays() {
    let (mut d, _) = start_drag(&["a"], false);
    assert!(matches!(d.release(Some((0, &p("C:\\d\\a"))), true, &p("C:\\d"), true), Drop::Nothing));
    let (mut d, _) = start_drag(&["a"], false);
    d.hover(&p("C:\\t"), true);
    match d.release(None, false, &p("C:\\d"), true) {
        Drop::Move { dest, .. } => assert_eq!(dest.to_text(), "C:\\d"),
        _ => panic!("what is no folder is no destination"),
    }
    let (mut d, _) = start_drag(&["a"], false);
    assert!(matches!(d.release(None, false, &p("C:\\d"), false), Drop::Nothing));
}

#[test]
fn a_drag_can_leave_the_window_or_be_given_up() {
    let (mut d, _) = start_drag(&["a", "b"], false);
    assert!(d.leave_window(true, false).is_none());
    assert_eq!(d.leave_window(true, true).unwrap().len(), 2);
    assert!(!d.active && d.quiet == 3);
    let (mut d, _) = start_drag(&["a"], true);
    d.cancel();
    assert!(!d.active && !d.right && d.sources.is_empty() && d.label.is_empty());
    let (mut d, _) = start_drag(&["a"], true);
    d.yield_to_incoming();
    assert!(!d.active && d.quiet == 2 && d.pressed.is_none());
    assert!(!d.opens_row_menu(true));
    let mut d = FileDrag::new();
    assert!(d.opens_row_menu(true) && d.opens_background_menu(true, false));
    assert!(!d.opens_background_menu(true, true));
    d.touch("a", held());
    d.forget_press();
    assert!(d.pressed.is_none());
    assert!(d.candidate(None).is_none());
}

#[test]
fn a_tab_is_shown_once_the_pointer_rests_on_it() {
    let (h, s) = hover_tab(None, Some(2), 0, 1000);
    assert!(h == Some(TabHover { tab: 2, since: 1000 }) && s.is_none());
    assert!(hover_tab(h, Some(2), 0, 1499).1.is_none());
    let (h, s) = hover_tab(h, Some(2), 0, 1500);
    assert_eq!(s, Some(2));
    assert!(h == Some(TabHover { tab: 2, since: 1500 }));
    assert!(hover_tab(h, Some(1), 0, 1600).0 == Some(TabHover { tab: 1, since: 1600 }));
    assert!(hover_tab(h, Some(0), 0, 1600).0.is_none());
    assert!(hover_tab(h, None, 0, 1600).0.is_none());
    assert_eq!(move_here_label(&vec![p("C:\\a")], &p("C:\\b")), "Move here");
    assert_eq!(move_here_label(&vec![p("C:\\a")], &p("D:\\b")), "Move here  (copy+delete)");
    assert_eq!(move_here_label(&Vec::new(), &p("D:\\b")), "Move here  (copy+delete)");
}

#[test]
fn headers_turn_the_order_about() {
    let s = SortState { column: SortColumn::Name, ascending: true };
    let t = click_header(s, SortColumn::Size);
    assert!(t == SortState { column: SortColumn::Size, ascending: false });
    let u = click_header(t, SortColumn::Size);
    assert!(u.ascending);
    assert!(click_header(u, SortColumn::Size) == t);
    assert!(click_header(t, SortColumn::Name) == s);
    assert_eq!(header_text(s, SortColumn::Name), "Name \u{2191}");
    assert_eq!(header_text(t, SortColumn::Size), "Size \u{2193}");
    assert_eq!(header_text(t, SortColumn::Date), "Date");
    let d = show_dates(s, true);
    assert!(d == SortState { column: SortColumn::Date, ascending: false });
    assert!(show_dates(d, false) == s);
    assert!(show_dates(t, false) == t);
}

#[test]
fn rows_look_like_what_they_are() {
    let look = row_look(true, true, true, true, "x");
    assert!(look.fill == Some(Rgb { r: 80, g: 200, b: 80 }) && look.ink == Ink::White && !look.italic);
    let look = row_look(false, true, true, false, "x");
    assert!(look.fill == Some(Rgb { r: 100, g: 150, b: 255 }) && look.italic);
    let look = row_look(false, false, false, true, "x");
    assert!(look.fill == Some(Rgb { r: 255, g: 245, b: 150 }) && look.ink == Ink::Dark);
    let look = row_look(false, false, false, true, "[..] Parent Directory");
    assert!(look.fill.is_none() && !look.colored_extension);
    let look = row_look(false, false, true, false, "x");
    assert!(look.fill.is_none() && look.italic && look.ink == Ink::Theme);
    assert!(size_cell("[..] x", true, Some(3)) == SizeCell::Blank);
    assert!(size_cell("d", true, None) == SizeCell::Bytes(0));
    assert!(size_cell("f", false, None) == SizeCell::Pending);
    assert!(size_cell("f", false, Some(3)) == SizeCell::Bytes(3));
    assert_eq!(row_path(&p("C:\\d"), "[..] Parent Directory").unwrap().to_text(), "C:\\");
    assert!(is_target_row(true, true, &p("C:\\d"), "x", Some(&p("C:\\d\\x"))));
    assert!(!is_target_row(true, false, &p("C:\\d"), "x", Some(&p("C:\\d\\x"))));
    assert!(cell_fill(false, true) == Some(Rgb { r: 80, g: 130, b: 220 }));
    assert!(cell_fill(false, false).is_none());
}

#[test]
fn a_double_click_opens() {
    let d = p("C:\\d");
    assert!(matches!(activate(&d, "[..] Parent Directory", true), Activation::GoUp));
    assert!(matches!(activate(&d, "s", true), Activation::OpenDir(x) if x.to_text() == "C:\\d\\s"));
    assert!(matches!(activate(&d, "A.LNK", false), Activation::Follow(_)));
    assert!(matches!(activate(&d, "a.txt", false), Activation::OpenFile(_)));
    assert!(matches!(follow(d.join("a.lnk"), Some(p("E:\\")), true), Activation::OpenDir(_)));
    assert!(matches!(follow(d.join("a.lnk"), Some(p("E:\\f")), false), Activation::OpenFile(x) if x.to_text() == "E:\\f"));
    assert!(matches!(follow(d.join("a.lnk"), None, false), Activation::OpenFile(x) if x.to_text() == "C:\\d\\a.lnk"));
    assert!(is_shortcut("X.Lnk") && !names_shortcut("x.txt"));
    assert_eq!(shortcut_path(&p("C:\\d\\a.b.txt"), &p("E:\\")).to_text(), "E:\\a.b.lnk");
    assert_eq!(shortcut_path(&p("C:\\"), &p("E:\\")).to_text(), "E:\\shortcut.lnk");
    assert_eq!(shortcut_target(&vec![0x43, 0x3a, 0, 0x41]), Some("C:".to_string()));
    assert_eq!(shortcut_target(&vec![0, 0x41]), None);
}

#[test]
fn pictures_are_read_once() {
    let list = rows(&["a.png", "b.txt", "c.JPG"]);
    let mut there: PathMap<()> = PathMap::new();
    there.insert(&p("C:\\d\\a.png"), ());
    let mut on_their_way: PathMap<()> = PathMap::new();
    let wanted = pictures_to_read(&p("C:\\d"), &list, &there, &mut on_their_way);
    assert_eq!(wanted.len(), 1);
    assert_eq!(wanted[0].to_text(), "C:\\d\\c.JPG");
    assert!(pictures_to_read(&p("C:\\d"), &list, &there, &mut on_their_way).is_empty());
    assert!(cell_picture("a.PNG", false) == CellPicture::Image);
    assert!(cell_picture("a.mp4", false) == CellPicture::Video);
    assert!(cell_picture("a", true) == CellPicture::Folder);
    assert!(cell_picture("a", false) == CellPicture::File);
}

#[test]
fn a_menu_offers_what_fits_the_row() {
    let script = p("C:\\d\\x.PS1");
    let menu = row_menu(&examine(&script, "x.PS1", false));
    assert!(menu.contains(&RowAction::RunInPowerShell) && menu.contains(&RowAction::OpenWithCode));
    assert!(!menu.contains(&RowAction::OpenInNewTab) && !menu.contains(&RowAction::ExtractHere));
    assert!(menu[0] == RowAction::OpenWith && menu[menu.len() - 1] == RowAction::Properties);
    let font = row_menu(&examine(&p("C:\\f.OTF"), "f.OTF", false));
    assert!(font.contains(&RowAction::InstallFont));
    let up = row_menu(&examine(&p("C:\\d"), "[..] Parent Directory", true));
    assert!(!up.contains(&RowAction::Rename) && !up.contains(&RowAction::Delete));
    let zip = p("C:\\d\\x.tar.gz");
    assert!(row_menu(&examine(&zip, "x.tar.gz", false)).contains(&RowAction::ExtractHere));
    assert_eq!(action_label(RowAction::ExtractHere, &zip), "Extract to ./x.tar");
    assert_eq!(action_label(RowAction::Delete, &zip), "Delete");
    assert_eq!(menu_path(Some(&p("E:\\t")), &p("C:\\d"), "n").to_text(), "E:\\t");
    assert_eq!(menu_path(None, &p("C:\\d"), "n").to_text(), "C:\\d\\n");
    assert_eq!(acted_on(&Vec::new(), &p("C:\\d"))[0].to_text(), "C:\\d");
    assert_eq!(acted_on(&vec![p("C:\\1"), p("C:\\2")], &p("C:\\d")).len(), 2);
    assert_eq!(path_for_clipboard(&p("C:\\d\\e")), "C:/d/e");
    assert_eq!(background_menu(true).len(), 4);
    assert!(!background_menu(false).contains(&BackgroundAction::UndoDelete));
    assert_eq!(background_label(BackgroundAction::Refresh), "\u{21BB}  Refresh");
    assert_eq!(holder_line(7, "x.exe"), "  \u{2022} x.exe (PID 7)");
}

#[test]
fn archives_are_made_and_unpacked() {
    assert_eq!(archive_file_name("a", ArchiveFormat::SevenZip), "a.7z");
    assert_eq!(
        pack(&p("C:\\a.zip"), ArchiveFormat::Zip, Compression::Medium, &vec![p("C:\\x"), p("C:\\y")]),
        vec!["a", "-tzip", "-mx5", "C:\\a.zip", "C:\\x", "C:\\y"]
    );
    assert_eq!(pack_summary(1), "1 item to archive");
    assert_eq!(pack_summary(3), "3 items to archive");
    let zip = p("C:\\d\\a.zip");
    let dest = unpacked_folder(&p("C:\\d"), &zip);
    assert_eq!(unpack(&zip, &dest), vec!["x", "C:\\d\\a.zip", "-oC:\\d\\a"]);
    assert_eq!(unpack_status(&zip), "Extracting a.zip\u{2026}");
}

#[test]
fn renaming_keeps_the_extension_apart() {
    let renamed = |d: &NameDialog| match d.confirm() {
        Some(Naming::Rename { old_path, new_path }) => (old_path.to_text(), new_path.to_text()),
        _ => panic!("a rename is asked for"),
    };
    let old = "C:\\t\\a.b.txt".to_string();
    let mut d = NameDialog::rename(&p(&old));
    assert_eq!(d.entry_name(), "a.b.txt");
    assert_eq!((d.buffer.as_str(), d.ext.as_str()), ("a.b", ".txt"));
    assert_eq!(renamed(&d), (old.clone(), old.clone()));
    d.show_extension(true);
    assert_eq!(d.buffer, "a.b.txt");
    assert_eq!(renamed(&d), (old.clone(), old.clone()));
    d.show_extension(false);
    assert_eq!(d.buffer, "a.b");
    d.buffer = "  n ".to_string();
    assert_eq!(renamed(&d), (old.clone(), "C:\\t\\n.txt".to_string()));
    d.show_extension(true);
    d.buffer = "other".to_string();
    d.show_extension(false);
    assert_eq!(d.buffer, "other");
    d.buffer = " ".to_string();
    assert!(d.confirm().is_none());
    let mut root = NameDialog::rename(&p("C:\\"));
    root.buffer = "x".to_string();
    assert!(root.confirm().is_none());
    let mut f = NameDialog::new_folder(&p("C:\\d"));
    f.buffer = " New ".to_string();
    assert!(!f.has_ext());
    match f.confirm() {
        Some(Naming::CreateFolder { path, name }) => {
            assert_eq!((path.to_text(), name), ("C:\\d\\New".to_string(), "New".to_string()));
        }
        _ => panic!("a folder is asked for"),
    }
    assert_eq!(new_item_name(" x "), Some("x".to_string()));
    assert_eq!(new_item_name(" "), None);
}

#[test]
fn the_rename_key_needs_one_row() {
    let list = rows(&LIST);
    let mut s = Selection::new();
    assert_eq!(row_to_rename(&s, &list), None);
    s.click(&list, "c", false, false);
    assert_eq!(row_to_rename(&s, &list), Some(3));
    s.click(&list, "d", true, false);
    assert_eq!(row_to_rename(&s, &list), None);
    s.right_click("gone");
    assert_eq!(row_to_rename(&s, &list), None);
}

#[test]
fn jobs_tell_how_far_they_are() {
    assert_eq!(job_title(true, 2, 12, "D:\\"), "Moving 3 of 12 files to D:\\");
    assert_eq!(job_title(false, 0, 0, "D:\\"), "Copying \u{ef}\u{bf}\u{bd} scanning \u{ef}\u{bf}\u{bd}");
    assert_eq!(queued_line(false, 1, "D:\\"), "\u{23f3} Queued: Copy 1 file ? D:\\");
    assert_eq!(queued_line(true, 2, "D:\\"), "\u{23f3} Queued: Move 2 files ? D:\\");
    assert_eq!(skipped_line("a"), "Skipped identical: a");
    assert_eq!(error_line("e"), "Error: e");
    assert_eq!((redraw_after(true), redraw_after(false)), (100, 2000));
}

#[test]
fn conflicts_are_put_into_words() {
    assert_eq!(age_text(100, 101), "future date");
    assert_eq!(age_text(100, 41), "59s ago");
    assert_eq!(age_text(3600, 1), "59m ago");
    assert_eq!(age_text(86399, 0), "23h ago");
    assert_eq!(age_text(2 * 86400, 0), "2 days ago");
    assert_eq!(conflict_line(true, "5 B", Some("3s ago")), "Source:       5 B  (3s ago)");
    assert_eq!(conflict_line(false, "6 B", None), "Destination:  6 B");
    assert_eq!(
        conflict_title(false, "a.txt"),
        "Copying \"a.txt\" \u{ef}\u{bf}\u{bd} file already exists"
    );
    let choices = conflict_choices();
    assert_eq!(choices.len(), 5);
    assert!(choices[2] == ConflictChoice::OverwriteAll);
    assert_eq!(choice_label(choices[0]), "Overwrite this file");
}

#[test]
fn a_finished_job_leaves_its_files_selected() {
    let mut job = CopyJobState::new(true, String::new());
    job.pasted_names = vec!["n".to_string()];
    let mut s = Selection::new();
    let mut c = FileClipboard::new();
    c.take(vec![p("C:\\a")], true);
    harvest(&job, &mut s, &mut c);
    assert_eq!(selected(&s), vec!["n"]);
    assert_eq!(c.files.len(), 1);
    job.clear_clipboard = true;
    harvest(&job, &mut s, &mut c);
    assert!(c.files.is_empty());
}

#[test]
fn a_deletion_starts_once() {
    assert!(start_delete_job(&Vec::new(), false).is_none());
    assert!(start_delete_job(&vec![p("C:\\a")], true).is_none());
    let f = start_delete_job(&vec![p("C:\\a")], false).unwrap();
    assert_eq!(f.message, "Deletion attempt...");
    assert!(!f.is_error && f.shown_ms.is_none());
    assert!(after_attempt(true).is_none());
    let next = after_attempt(false).unwrap();
    assert_eq!(delete_status(next), "Folder is locked. Attempting unlock + delete...");
    assert_eq!(delete_status(DeleteStage::InProgress), "Deletion in progress...");
}

#[test]
fn moved_files_go_back_where_they_came_from() {
    let sources = vec![p("C:\\a\\1"), p("C:\\b\\2"), p("C:\\a\\3"), p("C:\\"), p("C:\\a\\4")];
    let moved = find_moved(&sources, &p("D:\\to"));
    assert_eq!(moved.len(), 4);
    assert_eq!(moved[1].1.to_text(), "D:\\to\\2");
    let plan = plan_way_back(&moved, &vec![true, true, true, false]);
    assert_eq!(plan.len(), 2);
    assert_eq!(plan[0].0.to_text(), "C:\\a");
    let back: Vec<String> = plan[0].1.iter().map(|f| f.to_text()).collect();
    assert_eq!(back, vec!["D:\\to\\1", "D:\\to\\3"]);
    assert_eq!(plan[1].1.len(), 1);
    assert!(plan_way_back(&moved, &vec![false; 4]).is_empty());
}

#[test]
fn undoing_tells_what_came_of_it() {
    assert_eq!(undo_rename_failed("e").message, "Undo rename failed: e");
    assert_eq!(nothing_to_move_back().message, "Undo failed: files no longer found at destination.");
    assert_eq!(way_back_blocked("C:\\a", "e").message, "Undo move failed creating destination 'C:\\a': e");
    let f = undo_delete_result(1, 3, Some("C:\\x"));
    assert_eq!(f.message, "Undo delete incomplete: restored 1/3 item(s). First failure: C:\\x");
    assert!(f.is_error);
    assert!(undo_delete_result(0, 1, None).message.ends_with("unknown item"));
    let f = undo_delete_result(3, 3, None);
    assert_eq!(f.message, "Undo delete restored 3 item(s).");
    assert_eq!((f.is_error, f.shown_ms), (false, Some(2000)));
    assert!(undo_delete_unsupported().is_error);
}

fn png(width: u32, height: u32) -> Vec<u8> {
    let img = image::RgbaImage::from_pixel(width, height, image::Rgba([9, 8, 7, 255]));
    let mut out = std::io::Cursor::new(Vec::new());
    img.write_to(&mut out, image::ImageFormat::Png).unwrap();
    out.into_inner()
}

#[test]
fn small_pictures_fit_their_bounds() {
    let t = rusplorer::pictures::make_thumbnail("a.png", &png(480, 240)).unwrap();
    assert_eq!((t.width, t.height), (120, 60));
    assert_eq!(t.rgba.len(), 4 * 120 * 60);
    assert_eq!(&t.rgba[0..4], &[9, 8, 7, 255]);
    assert!(rusplorer::pictures::make_thumbnail("a.txt", &png(4, 4)).is_none());
    assert!(rusplorer::pictures::make_thumbnail("a.jpg", &png(4, 4)).is_none());
    let img = image::DynamicImage::ImageRgba8(image::RgbaImage::new(1, 600));
    let t = rusplorer::pictures::shrink(&img).unwrap();
    assert_eq!((t.width, t.height), (1, 120));
    assert!(rusplorer::pictures::make_thumbnail("png", &png(4, 4)).is_none());
    assert!(rusplorer::pictures::make_thumbnail("A.PNG", &png(4, 4)).is_some());
}

#[test]
fn keys_ask_things_of_the_window() {
    let all = WindowKeys {
        alt: true,
        ctrl: true,
        left: true,
        right: true,
        a: true,
        escape: true,
        f2: true,
    };
    let c = window_commands(all, true, false, false);
    assert!(c.back && c.forward && c.select_all && c.deselect && c.rename);
    let c = window_commands(all, true, true, true);
    assert!(c.back && c.forward && !c.select_all && !c.deselect && !c.rename);
    assert!(!window_commands(all, false, false, false).rename);
    let plain = WindowKeys { alt: false, ctrl: false, ..all };
    let c = window_commands(plain, true, false, false);
    assert!(!c.back && !c.forward && !c.select_all && c.deselect);
}

#[test]
fn a_rectangle_starts_follows_and_ends() {
    let s = band_step(false, true, true, false);
    assert!(s.start && s.extend && !s.end);
    let s = band_step(true, false, true, true);
    assert!(!s.start && s.extend && !s.end);
    let s = band_step(true, false, false, false);
    assert!(!s.start && !s.extend && s.end);
    let s = band_step(false, true, true, true);
    assert!(!s.start && !s.extend && !s.end);
}

#[test]
fn images_are_made_small_while_their_pixels_can_be_added_up() {
    let deep = |w: u32, h: u32| {
        image::DynamicImage::ImageLuma16(image::ImageBuffer::from_pixel(w, h, image::Luma([65535])))
    };
    let plain = |w: u32, h: u32| {
        image::DynamicImage::ImageLuma8(image::ImageBuffer::from_pixel(w, h, image::Luma([200])))
    };
    let t = rusplorer::pictures::shrink(&deep(24000, 299)).unwrap();
    assert_eq!((t.width, t.height), (120, 1));
    assert_eq!(&t.rgba[0..4], &[255, 255, 255, 255]);
    assert!(rusplorer::pictures::shrink(&deep(26000, 320)).is_none());
    assert!(rusplorer::pictures::shrink(&deep(320, 26000)).is_none());
    let t = rusplorer::pictures::shrink(&plain(30000, 320)).unwrap();
    assert_eq!((t.width, t.height), (120, 1));
    assert_eq!(&t.rgba[0..4], &[200, 200, 200, 255]);
    let t = rusplorer::pictures::shrink(&deep(4, 30000)).unwrap();
    assert_eq!((t.width, t.height), (1, 120));
    let t = rusplorer::pictures::shrink(&plain(3_000_000, 1)).unwrap();
    assert_eq!((t.width, t.height), (120, 1));
}
