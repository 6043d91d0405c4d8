//! File-system work: tallies, deletion, and restoring from the recycle bin.
use rusplorer::copy_job::CopyJobState;
use rusplorer::fs_ops::{
    add_to_dir_size, before_chunk, chunk_copied, delete_to_recycle_bin, find_locking_processes,
    force_unlock_and_delete, tally_sources, ChunkStep, LockRow, TreeItem, UnlockAction, UnlockStage,
};
use rusplorer::paths::{FsPath, PathPrefix};
use rusplorer::recycle::{
    content_name_of, parse_index, recycle_bin_of, sound_length, RestorePhase, RestoreRun,
};
use rusplorer::scan::{ScanOutcome, ScanPhase, ScanRun};
use rusplorer::transfer::{copy_files, move_files, Named, Node, Step};

/// The path that is written as `s`, such as `C:\a\b`.
fn p(s: &str) -> FsPath {
    let mut rest = s;
    let mut prefix = PathPrefix::Bare;
    let bytes = s.as_bytes();
    if bytes.len() >= 2 && bytes[1] == b':' {
        prefix = PathPrefix::Disk(bytes[0]);
        rest = &s[2..];
    }
    let rooted = rest.starts_with('\\');
    let names = rest.split('\\').filter(|n| !n.is_empty()).map(|n| n.to_string()).collect();
    FsPath::plain(prefix, rooted, names)
}

#[test]
fn files_and_bytes_are_counted_through_folders() {
    let tree = vec![
        TreeItem::File(Some(5)),
        TreeItem::Folder(vec![
            TreeItem::File(Some(7)),
            TreeItem::File(None),
            TreeItem::Folder(Vec::new()),
        ]),
    ];
    assert_eq!(tally_sources(&tree), (2, 12));
    assert_eq!(tally_sources(&Vec::new()), (0, 0));
}

#[test]
fn a_cancelled_copy_gives_up_even_when_paused() {
    assert!(before_chunk(true, true) == ChunkStep::GiveUp);
    assert!(before_chunk(false, true) == ChunkStep::Wait);
    assert!(before_chunk(false, false) == ChunkStep::Go);
    let mut j = CopyJobState::new(false, String::new());
    chunk_copied(&mut j, 100);
    chunk_copied(&mut j, 28);
    assert_eq!(j.bytes_copied, 128);
}

#[test]
fn directory_sizes_are_reported_in_strides() {
    let mut size: u64 = 0;
    assert_eq!(add_to_dir_size(&mut size, 65535), None);
    assert_eq!(add_to_dir_size(&mut size, 1), Some(65536));
    assert_eq!(add_to_dir_size(&mut size, 10), None);
    assert_eq!(size, 65546);
}

#[test]
fn a_deletion_counts_only_when_everything_is_gone() {
    assert!(delete_to_recycle_bin(&vec![true, true], true, &vec![false, false]));
    assert!(!delete_to_recycle_bin(&vec![true, false], true, &vec![false, false]));
    assert!(!delete_to_recycle_bin(&Vec::new(), true, &Vec::new()));
    assert!(!delete_to_recycle_bin(&vec![true], true, &vec![true]));
    assert!(!delete_to_recycle_bin(&vec![true], false, &vec![false]));
    assert!(!delete_to_recycle_bin(&vec![false], true, &vec![false]));
}

#[test]
fn a_forced_deletion_ends_the_programs_in_its_way() {
    let paths = vec![p("C:\\a"), p("C:\\b")];
    assert!(matches!(
        force_unlock_and_delete(&paths, &UnlockStage::Begin),
        UnlockAction::Delete(v) if v.len() == 2
    ));
    assert!(matches!(
        force_unlock_and_delete(&paths, &UnlockStage::FirstTried(true)),
        UnlockAction::Done(true)
    ));
    assert!(matches!(
        force_unlock_and_delete(&paths, &UnlockStage::FirstTried(false)),
        UnlockAction::FindLockers
    ));
    match force_unlock_and_delete(&paths, &UnlockStage::LockersFound(vec![7, 9, 7, 4], 9)) {
        UnlockAction::Terminate(pids) => assert_eq!(pids, vec![7, 4]),
        _ => panic!("programs are ended"),
    }
    match force_unlock_and_delete(&paths, &UnlockStage::StillThere(vec![false, true])) {
        UnlockAction::Delete(v) => {
            assert_eq!(v.len(), 1);
            assert_eq!(v[0].to_text(), "C:\\b");
        }
        _ => panic!("what remains is deleted"),
    }
    assert!(matches!(
        force_unlock_and_delete(&paths, &UnlockStage::SecondTried(false)),
        UnlockAction::Done(false)
    ));
}

#[test]
fn programs_are_named_up_to_the_zero() {
    let rows = vec![LockRow { pid: 12, name: vec![0x61, 0x62, 0, 0x63] }];
    assert_eq!(find_locking_processes(&rows), vec![(12, "ab".to_string())]);
}

fn index_file(path: &str) -> Vec<u8> {
    let mut d: Vec<u8> = vec![2, 0, 0, 0, 0, 0, 0, 0];
    d.extend_from_slice(&[0; 16]);
    let units: Vec<u16> = path.encode_utf16().chain(std::iter::once(0)).collect();
    d.extend_from_slice(&(units.len() as u32).to_le_bytes());
    for u in units {
        d.extend_from_slice(&u.to_le_bytes());
    }
    d
}

#[test]
fn index_files_name_the_original() {
    let d = index_file("C:\\a\\b.txt");
    assert!(sound_length(&d));
    assert_eq!(parse_index(&d), Some("C:\\a\\b.txt".to_string()));
    let mut old: Vec<u8> = vec![1, 0, 0, 0, 0, 0, 0, 0];
    old.extend_from_slice(&[0; 16]);
    for u in "C:\\x".encode_utf16() {
        old.extend_from_slice(&u.to_le_bytes());
    }
    old.extend_from_slice(&[0, 0, 9, 9]);
    assert_eq!(parse_index(&old), Some("C:\\x".to_string()));
    assert_eq!(parse_index(&[0; 27]), None);
    assert_eq!(parse_index(&d[..40]), None);
    let mut negative = d.clone();
    negative[27] = 0xff;
    assert!(!sound_length(&negative));
    assert_eq!(content_name_of("$IABC.txt"), "$RABC.txt");
    assert_eq!(recycle_bin_of(&p("C:\\a\\b")).unwrap().to_text(), "C:\\$Recycle.Bin");
    assert!(recycle_bin_of(&p("a")).is_none());
}

#[test]
fn deleted_files_are_searched_and_moved_back() {
    let mut r = RestoreRun::start(vec![p("C:\\here"), p("C:\\a\\b.txt"), p("C:\\gone")]);
    r.on_presence(true);
    assert_eq!((r.restored, r.at), (1, 1));
    r.on_presence(false);
    assert!(r.phase == RestorePhase::ListBin);
    r.on_bin_listed(Some(&vec!["S-1".to_string(), "S-2".to_string()]));
    assert_eq!(r.folder.to_text(), "C:\\$Recycle.Bin\\S-1");
    r.on_folder_listed(None);
    assert_eq!(r.folder.to_text(), "C:\\$Recycle.Bin\\S-2");
    r.on_folder_listed(Some(&vec!["desktop.ini".to_string(), "$I1.txt".to_string(), "$I2.txt".to_string()]));
    assert_eq!(r.index, "$I1.txt");
    r.on_index_read(Some(&index_file("C:\\other")));
    assert_eq!(r.index, "$I2.txt");
    r.on_index_read(Some(&index_file("c:\\A\\B.TXT")));
    assert!(r.phase == RestorePhase::CheckContent);
    assert_eq!(r.content_path().to_text(), "C:\\$Recycle.Bin\\S-2\\$R2.txt");
    r.on_content(true);
    r.on_move_tried(true);
    assert_eq!(r.restored, 2);
    r.on_presence(false);
    r.on_bin_listed(Some(&Vec::new()));
    assert!(r.phase == RestorePhase::CheckAgain);
    r.on_presence_again(false);
    assert!(r.phase == RestorePhase::Finished);
    assert_eq!((r.restored, r.failed.len()), (2, 1));
    assert_eq!(r.failed[0].to_text(), "C:\\gone");
    assert_eq!(r.restored + r.failed.len(), r.paths.len());
}

#[test]
fn a_plain_copy_makes_folders_before_their_files() {
    let folder = Node::Folder(vec![
        Named { name: "x".to_string(), node: Node::File },
        Named { name: "sub".to_string(), node: Node::Folder(Vec::new()) },
    ]);
    let steps = copy_files(&vec![(p("C:\\f"), Node::File), (p("C:\\d"), folder)], &p("E:\\to"));
    let told: Vec<String> = steps
        .iter()
        .map(|s| match s {
            Step::MakeFolder(d) => format!("+{}", d.to_text()),
            Step::CopyFile { from, to } => format!("{}>{}", from.to_text(), to.to_text()),
            Step::Rename { .. } => panic!("a copy renames nothing"),
        })
        .collect();
    assert_eq!(
        told,
        vec![
            "C:\\f>E:\\to\\f",
            "+E:\\to\\d",
            "C:\\d\\x>E:\\to\\d\\x",
            "+E:\\to\\d\\sub",
        ]
    );
}

#[test]
fn a_plain_move_renames_each_source() {
    let steps = move_files(&vec![p("C:\\f"), p("C:\\d")], &p("E:\\to"));
    assert_eq!(steps.len(), 2);
    assert!(matches!(
        &steps[1],
        Step::Rename { from, to } if from.to_text() == "C:\\d" && to.to_text() == "E:\\to\\d"
    ));
}

fn texts(v: &[&str]) -> Vec<String> {
    v.iter().map(|s| s.to_string()).collect()
}

#[test]
fn a_scan_adds_up_the_files_of_a_folder() {
    let mut run = ScanRun::start(p("C:\\r"), 0);
    let mut visited: Vec<String> = Vec::new();
    let mut reports: Vec<u64> = Vec::new();
    while run.phase != ScanPhase::Finished {
        let at = run.at.to_text();
        match run.phase {
            ScanPhase::ListFolder => {
                let names = match at.as_str() {
                    "C:\\r" => Some(texts(&["a", "dir", "locked", "b"])),
                    "C:\\r\\dir" => Some(texts(&["c", "d"])),
                    _ => None,
                };
                reports.extend(run.on_listed(names.as_ref()));
            }
            ScanPhase::MayBegin | ScanPhase::MayGoOn => {
                let phase = run.phase;
                run.on_flags(false, true);
                assert!(run.phase == phase);
                run.on_flags(false, false);
            }
            ScanPhase::Inspect => run.on_inspected(at.ends_with("dir") || at.ends_with("locked")),
            ScanPhase::Measure => {
                visited.push(at.clone());
                let size = match at.as_str() {
                    "C:\\r\\a" => Some(65000),
                    "C:\\r\\dir\\c" => Some(600),
                    "C:\\r\\dir\\d" => None,
                    _ => Some(7),
                };
                reports.extend(run.on_measured(size));
            }
            ScanPhase::Finished => {}
        }
    }
    assert_eq!(run.total, 65607);
    assert!(run.is_complete());
    assert_eq!(visited, texts(&["C:\\r\\a", "C:\\r\\dir\\c", "C:\\r\\dir\\d", "C:\\r\\b"]));
    assert_eq!(reports, vec![65600, 65600]);
}

#[test]
fn a_cancelled_scan_keeps_what_it_counted() {
    let mut run = ScanRun::start(p("C:\\r"), 0);
    run.on_flags(false, false);
    assert_eq!(run.on_listed(Some(&texts(&["a", "b"]))), None);
    run.on_flags(false, false);
    run.on_inspected(false);
    assert_eq!(run.on_measured(Some(5)), None);
    assert!(run.phase == ScanPhase::MayGoOn);
    run.on_flags(true, true);
    assert!(run.phase == ScanPhase::Finished);
    assert_eq!(run.total, 5);
    assert!(run.outcome == ScanOutcome::Cancelled && !run.is_complete());
}

#[test]
fn the_end_of_a_scan_says_what_it_saw() {
    let mut run = ScanRun::start(p("C:\\r"), 3);
    run.on_flags(true, false);
    assert!(run.phase == ScanPhase::Finished && run.outcome == ScanOutcome::Cancelled);
    assert_eq!(run.total, 3);
    let mut run = ScanRun::start(p("C:\\r"), 3);
    run.on_flags(false, false);
    assert_eq!(run.on_listed(Some(&Vec::new())), None);
    assert!(run.phase == ScanPhase::Finished && run.is_complete());
    let mut run = ScanRun::start(p("C:\\r"), 3);
    run.on_flags(false, false);
    assert_eq!(run.on_listed(None), Some(3));
    assert!(run.phase == ScanPhase::Finished && run.outcome == ScanOutcome::Unread);
}
