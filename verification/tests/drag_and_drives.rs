//! Drag and drop with other programs, and drives.
use rusplorer::dnd::{
    build_shell_idlist, clipboard_effect, find_rusplorer_desktop_guid, is_own_drag, is_settled,
    moves_dropped, parse_guid, preferred_effect, query_continue_drag, read_clipboard_drop_effect_is_cut,
    registers_target, shared_parent, staged_copy, staging_dir, tracked_button, was_moved, Delivery, DragFormats,
    DragPayload, DragStep, DropLoad, DropTarget, CF_HDROP, DROPEFFECT_COPY, DROPEFFECT_MOVE,
    DROPEFFECT_NONE, MK_LBUTTON, MK_RBUTTON,
};
use rusplorer::drives::{
    classify_drive, device_of, drive_label, drive_space, is_current_drive, list_drives,
    root_of, space_text, ssd_from_answer, used_bytes, DriveInfo, DriveTable,
};
use rusplorer::paths::{FsPath, PathPrefix};
use rusplorer::types::{DriveKind, Rgb};

/// The path that is written as `s`, such as `C:\a\b`.
fn p(s: &str) -> FsPath {
    let mut rest = s;
    let mut prefix = PathPrefix::Bare;
    let bytes = s.as_bytes();
    if bytes.len() >= 2 && bytes[1] == b':' {
        prefix = PathPrefix::Disk(bytes[0]);
        rest = &s[2..];
    }
    let rooted = rest.starts_with('\\');
    let names = rest.split('\\').filter(|n| !n.is_empty()).map(|n| n.to_string()).collect();
    FsPath::plain(prefix, rooted, names)
}

#[test]
fn guids_are_read_from_their_usual_form() {
    let g = parse_guid("{01234567-89AB-cdef-0123-456789abcdef}").unwrap();
    assert_eq!((g.data1, g.data2, g.data3), (0x01234567, 0x89ab, 0xcdef));
    assert_eq!(g.data4, [0x01, 0x23, 0x45, 0x67, 0x89, 0xab, 0xcd, 0xef]);
    assert!(parse_guid("{01234567-89AB-cdef-0123}").is_none());
    assert!(parse_guid("").is_none());
    let h = parse_guid("{01234567-89AB-cdef-0123-456789abcdee}").unwrap();
    assert_ne!(g.data4, h.data4);
}

#[test]
fn the_desktop_is_found_by_its_name() {
    let desktops = vec![
        ("{00000000-0000-0000-0000-000000000001}".to_string(), "Work".to_string()),
        ("{00000000-0000-0000-0000-000000000002}".to_string(), "Rusplorer".to_string()),
    ];
    assert_eq!(find_rusplorer_desktop_guid(&desktops).unwrap().data4[7], 2);
    assert!(find_rusplorer_desktop_guid(&vec![]).is_none());
}

#[test]
fn an_item_list_leads_to_its_items() {
    let parent: Vec<u8> = vec![9, 9, 0, 0];
    let items: Vec<Vec<u8>> = vec![vec![1, 0, 0], vec![2, 0]];
    let list = build_shell_idlist(&parent, &items);
    assert_eq!(&list[0..4], &[2, 0, 0, 0]);
    for (i, want) in [&parent, &items[0], &items[1]].iter().enumerate() {
        let at = 4 + 4 * i;
        let offset = u32::from_le_bytes([list[at], list[at + 1], list[at + 2], list[at + 3]]) as usize;
        assert_eq!(&list[offset..offset + want.len()], want.as_slice());
    }
    assert_eq!(shared_parent(&vec![p("C:\\a\\x"), p("C:\\a\\y")]).unwrap().to_text(), "C:\\a");
    assert!(shared_parent(&vec![p("C:\\a\\x"), p("C:\\b\\y")]).is_none());
}

#[test]
fn a_drag_goes_on_until_its_button_is_let_go() {
    assert_eq!((tracked_button(true), tracked_button(false)), (MK_RBUTTON, MK_LBUTTON));
    assert!(query_continue_drag(true, MK_LBUTTON, MK_LBUTTON) == DragStep::Cancel);
    assert!(query_continue_drag(false, MK_LBUTTON, MK_LBUTTON) == DragStep::GoOn);
    assert!(query_continue_drag(false, MK_RBUTTON, MK_LBUTTON) == DragStep::Drop);
    assert!(was_moved(true, DROPEFFECT_MOVE));
    assert!(!was_moved(true, DROPEFFECT_COPY));
    assert!(!was_moved(false, DROPEFFECT_MOVE));
    assert_ne!(preferred_effect(true), 99);
}

#[test]
fn the_formats_told_of_can_be_had() {
    let f = DragFormats { right_drag: 0xc001, source_drag: 0xc002, item_list: 0xc003, preferred_effect: 0xc004 };
    for format in f.enum_formats() {
        assert!(f.query_get_data(format));
        assert!(f.get_data(format).is_some());
    }
    assert!(matches!(f.get_data(CF_HDROP), Some(DragPayload::FileList)));
    assert!(f.get_data(1).is_none());
    assert!(!f.query_get_data(1));
}

#[test]
fn a_drag_of_ones_own_is_refused() {
    assert!(is_own_drag(Some(7), 7));
    assert!(!is_own_drag(None, 7));
    let mut t = DropTarget::new();
    assert_eq!(t.drag_enter(true, MK_LBUTTON, false, false, true), DROPEFFECT_NONE);
    assert_eq!(t.drag_over(MK_LBUTTON), DROPEFFECT_NONE);
    let (d, e) = t.drop_files(DropLoad::Files(true), false);
    assert!(d == Delivery::Nowhere);
    assert_eq!(e, DROPEFFECT_NONE);
}

#[test]
fn a_foreign_drag_is_delivered() {
    let mut t = DropTarget::new();
    assert_eq!(t.drag_enter(false, MK_LBUTTON, false, false, true), DROPEFFECT_COPY);
    assert!(t.drop_files(DropLoad::Files(true), false).0 == Delivery::Copy);
    let mut t = DropTarget::new();
    t.drag_enter(false, MK_LBUTTON, false, false, true);
    t.drag_over(MK_RBUTTON);
    assert!(t.drop_files(DropLoad::Files(true), false).0 == Delivery::Menu);
    let mut t = DropTarget::new();
    t.drag_enter(false, MK_RBUTTON, false, false, true);
    t.drag_leave();
    t.drag_enter(false, MK_LBUTTON, false, false, true);
    assert!(t.drop_files(DropLoad::Files(false), false).0 == Delivery::Nowhere);
    assert!(t.drop_files(DropLoad::Unreadable, false).0 == Delivery::Nowhere);
}

#[test]
fn files_from_the_staging_folder_are_moved() {
    let temp = p("C:\\T");
    assert_eq!(staging_dir(&temp).to_text(), "C:\\T\\rusplorer_drop");
    assert!(moves_dropped(&vec![p("C:\\T\\rusplorer_drop\\a")], &temp));
    assert!(!moves_dropped(&vec![p("C:\\T\\rusplorer_drop\\a"), p("C:\\b")], &temp));
    let staged = staged_copy(&p("C:\\T\\7z\\a.txt"), &temp);
    assert_eq!(staged.unwrap().to_text(), "C:\\T\\rusplorer_drop\\a.txt");
    assert!(staged_copy(&p("D:\\a.txt"), &temp).is_none());
}

#[test]
fn the_effect_on_the_clipboard_is_read_back() {
    assert!(read_clipboard_drop_effect_is_cut(Some(clipboard_effect(true))));
    assert!(!read_clipboard_drop_effect_is_cut(Some(clipboard_effect(false))));
    assert!(!read_clipboard_drop_effect_is_cut(None));
}

#[test]
fn drives_are_listed_by_their_letters() {
    let mut present = vec![false; 26];
    present[2] = true;
    present[25] = true;
    assert_eq!(list_drives(&present), vec!["C:\\", "Z:\\"]);
    assert_eq!(root_of('D'), "D:\\");
    assert_eq!(device_of('D'), "\\\\.\\D:");
    assert_eq!(drive_label("C:\\"), "C:");
}

#[test]
fn drives_are_told_apart() {
    assert!(classify_drive(4, None, None) == DriveKind::Network);
    assert!(classify_drive(5, None, None) == DriveKind::CdRom);
    assert!(classify_drive(2, None, None) == DriveKind::Removable);
    assert!(classify_drive(3, Some(7), Some(true)) == DriveKind::Removable);
    assert!(classify_drive(3, Some(11), Some(true)) == DriveKind::Ssd);
    assert!(classify_drive(3, Some(11), Some(false)) == DriveKind::Hdd);
    assert!(classify_drive(0, None, None) == DriveKind::Unknown);
    assert_eq!(ssd_from_answer(true, 0), Some(true));
    assert_eq!(ssd_from_answer(true, 1), Some(false));
    assert_eq!(ssd_from_answer(false, 0), None);
    assert_eq!(drive_space(true, 3, 9), (3, 9));
    assert_eq!(drive_space(false, 3, 9), (0, 0));
    assert_eq!(DriveKind::Ssd.label(), "SSD");
    assert!(DriveKind::Hdd.color() == Some(Rgb { r: 130, g: 130, b: 130 }));
    assert!(DriveKind::Unknown.color().is_none());
}

fn info(drive: &str, kind: DriveKind, free_bytes: u64, total_bytes: u64) -> DriveInfo {
    DriveInfo { drive: drive.to_string(), kind, free_bytes, total_bytes }
}

#[test]
fn drives_that_may_sleep_are_slow() {
    let mut t = DriveTable::new();
    t.kinds.push(("C:\\".to_string(), DriveKind::Ssd));
    t.kinds.push(("D:\\".to_string(), DriveKind::Hdd));
    assert!(t.is_slow_drive(&p("D:\\a\\b")));
    assert!(!t.is_slow_drive(&p("C:\\a")));
    assert!(!t.is_slow_drive(&p("E:\\a")));
    assert!(!t.is_slow_drive(&p("")));
}

#[test]
fn space_is_put_into_words() {
    let full = info("C:\\", DriveKind::Ssd, 3, 10);
    assert_eq!(used_bytes(&full), 7);
    assert_eq!(used_bytes(&info("C:\\", DriveKind::Ssd, 11, 10)), 0);
    assert_eq!(space_text(&full, "3 B", "10 B"), "3 B free  /  10 B total");
    assert_eq!(space_text(&info("A:\\", DriveKind::CdRom, 0, 0), "", ""), "No media");
    assert!(is_current_drive("C:\\a", "C:\\"));
    assert!(!is_current_drive("D:\\a", "C:\\"));
}

#[test]
fn drives_that_come_are_asked_about_and_those_that_go_forgotten() {
    let mut t = DriveTable::new();
    let q = t.rescan(vec!["C:\\".to_string(), "D:\\".to_string()]);
    assert_eq!(q.unclassified, vec!["C:\\", "D:\\"]);
    assert_eq!(q.unmeasured, vec!["C:\\", "D:\\"]);
    for d in q.unclassified {
        t.kinds.push((d, DriveKind::Ssd));
    }
    for d in q.unmeasured {
        t.infos.push(info(&d, DriveKind::Ssd, 1, 2));
    }
    let q = t.rescan(vec!["C:\\".to_string(), "D:\\".to_string()]);
    assert!(q.unclassified.is_empty() && q.unmeasured.is_empty());
    let q = t.rescan(vec!["D:\\".to_string(), "E:\\".to_string()]);
    assert_eq!(q.unclassified, vec!["E:\\"]);
    assert_eq!(t.kinds.len(), 1);
    assert_eq!(t.infos[0].drive, "D:\\");
    assert!(t.kind_of("D:\\") == DriveKind::Ssd);
    assert!(t.kind_of("C:\\") == DriveKind::Unknown);
}

#[test]
fn the_drop_target_waits_for_its_place() {
    assert!(registers_target(true, false) && registers_target(false, true));
    assert!(!registers_target(false, false));
    assert!(is_settled(true, true, true));
    assert!(!is_settled(true, false, true));
    assert!(is_settled(true, false, false));
    assert!(!is_settled(false, false, false));
    assert!(!is_settled(false, true, false));
    assert!(is_settled(false, true, true));
}
