//! Copy and move jobs, and the queue that they wait in.
use rusplorer::copy_job::{
    answer_conflict, check_file_conflict, make_copy_name, make_copy_path, name_or_empty,
    ConflictChoice, CopyJobState, CopyPhase, CopyRun, FileAction, FileFacts,
};
use rusplorer::copy_queue::{drives_of, letter_of, CopyQueue, QueuedCopy};
use rusplorer::paths::{FsPath, PathPrefix};
use rusplorer::undo::{undo_of, UndoAction};

/// The path that is written as `s`, such as `C:\a\b`.
fn p(s: &str) -> FsPath {
    let mut rest = s;
    let mut prefix = PathPrefix::Bare;
    let bytes = s.as_bytes();
    if bytes.len() >= 2 && bytes[1] == b':' {
        prefix = PathPrefix::Disk(bytes[0]);
        rest = &s[2..];
    }
    let rooted = rest.starts_with('\\');
    let names = rest.split('\\').filter(|n| !n.is_empty()).map(|n| n.to_string()).collect();
    FsPath::plain(prefix, rooted, names)
}

fn facts(size: u64, modified: i128) -> Option<FileFacts> {
    Some(FileFacts { size, modified: Some(modified) })
}

#[test]
fn a_new_job_has_done_nothing() {
    let j = CopyJobState::new(true, "D:\\".to_string());
    assert!(j.is_move && !j.done && !j.cancelled && !j.paused);
    assert_eq!(j.dest_display, "D:\\");
    assert_eq!((j.files_done, j.files_total, j.bytes_copied, j.total_bytes), (0, 0, 0, 0));
    assert!(j.error.is_none() && j.pasted_names.is_empty());
}

#[test]
fn nothing_in_the_way_is_no_conflict() {
    let mut j = CopyJobState::new(false, String::new());
    let a = check_file_conflict(&mut j, "a.txt", false, facts(5, 1), None);
    assert!(matches!(a, FileAction::Copy));
    assert!(j.conflict_query.is_none());
}

#[test]
fn an_identical_file_is_skipped_and_noted() {
    let mut j = CopyJobState::new(false, String::new());
    let a = check_file_conflict(&mut j, "a.txt", true, facts(5, 1_000_000_000), facts(5, 1_000_000_000));
    assert!(matches!(a, FileAction::Skip));
    assert_eq!(j.skipped_identical, vec!["a.txt"]);
    assert!(j.conflict_query.is_none());
}

#[test]
fn a_different_file_is_asked_about() {
    let mut j = CopyJobState::new(false, String::new());
    let a = check_file_conflict(&mut j, "a.txt", true, facts(5, 1), facts(6, 1));
    assert!(matches!(a, FileAction::Ask));
    let q = j.conflict_query.as_ref().unwrap();
    assert_eq!((q.file_name.as_str(), q.src_size, q.dst_size), ("a.txt", 5, 6));
    assert!(matches!(answer_conflict(&mut j, ConflictChoice::Overwrite), FileAction::Copy));
    assert!(j.conflict_query.is_none() && !j.overwrite_all);
}

#[test]
fn a_choice_for_all_asks_no_more() {
    let mut j = CopyJobState::new(false, String::new());
    check_file_conflict(&mut j, "a", true, facts(5, 1), facts(6, 1));
    assert!(matches!(answer_conflict(&mut j, ConflictChoice::SkipAll), FileAction::Skip));
    let a = check_file_conflict(&mut j, "b", true, facts(7, 1), facts(8, 1));
    assert!(matches!(a, FileAction::Skip));
    let mut j = CopyJobState::new(false, String::new());
    check_file_conflict(&mut j, "a", true, facts(5, 1), facts(6, 1));
    assert!(matches!(answer_conflict(&mut j, ConflictChoice::OverwriteAll), FileAction::Copy));
    let a = check_file_conflict(&mut j, "b", true, facts(7, 1), facts(8, 1));
    assert!(matches!(a, FileAction::Copy));
}

#[test]
fn an_abort_cancels_the_job() {
    let mut j = CopyJobState::new(false, String::new());
    check_file_conflict(&mut j, "a", true, facts(5, 1), facts(6, 1));
    assert!(matches!(answer_conflict(&mut j, ConflictChoice::Abort), FileAction::Skip));
    assert!(j.cancelled);
}

#[test]
fn copies_have_names_of_their_own() {
    assert_eq!(make_copy_name("a.txt", false, 1), "a copy.txt");
    assert_eq!(make_copy_name("a.txt", false, 2), "a copy 2.txt");
    assert_eq!(make_copy_name("a.txt", false, 13), "a copy 13.txt");
    assert_eq!(make_copy_name("plain", false, 1), "plain copy");
    let copy = make_copy_path(&p("C:\\d\\a.b.c"), false, &p("C:\\d"), 3);
    assert_eq!(copy.to_text(), "C:\\d\\a.b copy 3.c");
    assert_eq!(make_copy_name("v1.2", true, 1), "v1.2 copy");
    assert_eq!(make_copy_name("v1.2", true, 2), "v1.2 copy 2");
    let copy = make_copy_path(&p("C:\\d\\v1.2"), true, &p("C:\\d"), 1);
    assert_eq!(copy.to_text(), "C:\\d\\v1.2 copy");
    assert_eq!(name_or_empty(&p("C:\\")), "");
}

#[test]
fn a_file_is_copied_step_by_step() {
    let mut j = CopyJobState::new(false, "D:\\".to_string());
    let mut run = CopyRun::start(vec![p("C:\\a.txt")], p("D:\\"), &mut j, 77, 1, 5);
    assert_eq!((j.started_at_ms, j.files_total, j.total_bytes), (77, 1, 5));
    assert!(matches!(run.phase, CopyPhase::InspectSource));
    run.on_source_inspected(&mut j, false);
    assert!(matches!(run.phase, CopyPhase::Compare));
    assert_eq!(run.to.to_text(), "D:\\a.txt");
    assert_eq!(j.current_file, "a.txt");
    run.on_compared(&mut j, false, facts(5, 1), None);
    assert!(matches!(run.phase, CopyPhase::CopyFile));
    run.on_file_copied(&mut j);
    assert!(matches!(run.phase, CopyPhase::Finished));
    assert!(j.done);
    assert_eq!((j.files_done, j.pasted_names.len()), (1, 1));
    assert_eq!(j.pasted_names[0], "a.txt");
}

#[test]
fn a_copy_beside_itself_gets_a_free_name() {
    let mut j = CopyJobState::new(false, String::new());
    let mut run = CopyRun::start(vec![p("C:\\d\\a.txt")], p("C:\\d"), &mut j, 0, 1, 5);
    run.on_source_inspected(&mut j, false);
    assert!(matches!(run.phase, CopyPhase::ProbeName(1)));
    run.on_name_probed(&mut j, true);
    assert!(matches!(run.phase, CopyPhase::ProbeName(2)));
    run.on_name_probed(&mut j, false);
    assert_eq!(run.target.to_text(), "C:\\d\\a copy 2.txt");
    assert!(matches!(run.phase, CopyPhase::Compare));
}

#[test]
fn a_folder_is_never_put_into_itself() {
    let mut j = CopyJobState::new(true, String::new());
    let mut run = CopyRun::start(vec![p("C:\\a")], p("C:\\a\\b"), &mut j, 0, 0, 0);
    run.on_source_inspected(&mut j, true);
    assert!(matches!(run.phase, CopyPhase::Finished));
    assert_eq!(
        j.error.as_deref(),
        Some("Refusing unsafe operation: destination is inside source (C:\\a)")
    );
    let mut j = CopyJobState::new(true, String::new());
    let given = p("C:\\a").written_as("c:/a/");
    let mut run = CopyRun::start(vec![given], p("C:\\a\\b"), &mut j, 0, 0, 0);
    run.on_source_inspected(&mut j, true);
    assert_eq!(
        j.error.as_deref(),
        Some("Refusing unsafe operation: destination is inside source (c:/a/)")
    );
}

#[test]
fn a_move_tries_a_rename_and_else_recycles_last() {
    let mut j = CopyJobState::new(true, String::new());
    let mut run = CopyRun::start(vec![p("C:\\a"), p("C:\\b.txt")], p("D:\\"), &mut j, 0, 3, 9);
    run.on_source_inspected(&mut j, true);
    assert!(matches!(run.phase, CopyPhase::ProbeTarget));
    run.on_target_probed(&mut j, false);
    assert!(matches!(run.phase, CopyPhase::Rename));
    run.on_rename_tried(&mut j, Some((2, 7)));
    assert_eq!((j.files_done, j.bytes_copied), (2, 7));
    assert_eq!(j.pasted_names, vec!["a"]);
    run.on_source_inspected(&mut j, false);
    run.on_target_probed(&mut j, false);
    run.on_rename_tried(&mut j, None);
    assert!(matches!(run.phase, CopyPhase::Compare));
    run.on_compared(&mut j, false, facts(2, 1), None);
    run.on_file_copied(&mut j);
    assert!(matches!(run.phase, CopyPhase::Recycle));
    run.on_recycled(&mut j);
    assert!(matches!(run.phase, CopyPhase::Finished));
    assert_eq!(j.pasted_names, vec!["a", "b.txt"]);
}

#[test]
fn an_original_that_stays_is_reported() {
    let mut j = CopyJobState::new(true, String::new());
    let mut run = CopyRun::start(vec![p("C:\\b.txt")], p("D:\\"), &mut j, 0, 1, 2);
    run.on_source_inspected(&mut j, false);
    run.on_target_probed(&mut j, false);
    run.on_rename_tried(&mut j, None);
    run.on_compared(&mut j, false, facts(2, 1), None);
    run.on_file_copied(&mut j);
    let message = run.recycle_failure();
    assert_eq!(message, "Move safety stop: couldn't send original to Recycle Bin: C:\\b.txt");
    run.on_not_recycled(&mut j, &message);
    assert!(matches!(run.phase, CopyPhase::Finished));
    assert_eq!(j.error.as_deref(), Some("b.txt: Move safety stop: couldn't send original to Recycle Bin: C:\\b.txt"));
    assert!(j.pasted_names.is_empty());
}

#[test]
fn the_entries_of_a_folder_follow_each_other() {
    let mut j = CopyJobState::new(false, String::new());
    let mut run = CopyRun::start(vec![p("C:\\a")], p("D:\\"), &mut j, 0, 2, 2);
    run.on_source_inspected(&mut j, true);
    assert!(matches!(run.phase, CopyPhase::OpenDir));
    run.on_dir_listed(&mut j, &vec!["x".to_string(), "sub".to_string()]);
    assert_eq!((run.from.to_text(), run.to.to_text()), ("C:\\a\\x".to_string(), "D:\\a\\x".to_string()));
    run.on_entry_inspected(&mut j, false);
    run.on_compared(&mut j, false, facts(1, 1), None);
    run.on_file_copied(&mut j);
    assert_eq!(run.from.to_text(), "C:\\a\\sub");
    run.on_entry_inspected(&mut j, true);
    run.on_dir_listed(&mut j, &Vec::new());
    assert!(j.done);
    assert_eq!(j.pasted_names, vec!["a"]);
}

#[test]
fn a_refusal_of_the_file_system_ends_the_job() {
    let mut j = CopyJobState::new(false, String::new());
    let mut run = CopyRun::start(vec![p("C:\\a"), p("C:\\b")], p("D:\\"), &mut j, 0, 2, 2);
    run.on_source_inspected(&mut j, true);
    run.on_refused(&mut j, false, "access denied");
    assert!(matches!(run.phase, CopyPhase::Finished));
    assert_eq!(j.error.as_deref(), Some("a: access denied"));
    let mut j = CopyJobState::new(false, String::new());
    let mut run = CopyRun::start(vec![p("C:\\a")], p("D:\\"), &mut j, 0, 2, 2);
    run.on_source_inspected(&mut j, true);
    run.on_refused(&mut j, true, "interrupted");
    assert!(j.done && j.error.is_none());
}

#[test]
fn cancelling_stops_before_the_next_source() {
    let mut j = CopyJobState::new(false, String::new());
    let mut run = CopyRun::start(vec![p("C:\\a"), p("C:\\b")], p("D:\\"), &mut j, 0, 2, 2);
    run.on_source_inspected(&mut j, false);
    run.on_compared(&mut j, false, facts(1, 1), None);
    j.cancelled = true;
    run.on_file_copied(&mut j);
    assert!(j.done);
    assert_eq!(j.pasted_names, vec!["a"]);
}

#[test]
fn an_answer_leads_on_and_no_answer_skips() {
    let mut j = CopyJobState::new(false, String::new());
    let mut run = CopyRun::start(vec![p("C:\\a"), p("C:\\b")], p("D:\\"), &mut j, 0, 2, 2);
    run.on_source_inspected(&mut j, false);
    run.on_compared(&mut j, true, facts(1, 1), facts(2, 1));
    assert!(matches!(run.phase, CopyPhase::Ask));
    run.on_answered(&mut j, ConflictChoice::Overwrite);
    assert!(matches!(run.phase, CopyPhase::CopyFile));
    run.on_file_copied(&mut j);
    run.on_source_inspected(&mut j, false);
    run.on_compared(&mut j, true, facts(1, 1), facts(2, 1));
    j.cancelled = true;
    run.on_unanswered(&mut j);
    assert!(matches!(run.phase, CopyPhase::Finished));
    assert!(j.conflict_query.is_none());
}

#[test]
fn jobs_on_one_drive_wait_for_each_other() {
    assert_eq!(letter_of(&p("c:\\a")), Some('C'));
    assert_eq!(letter_of(&p("\\a")), None);
    let mut verbatim = p("\\a");
    verbatim.prefix = PathPrefix::VerbatimDisk(b'c');
    assert_eq!(verbatim.to_text(), "\\\\?\\c:\\a");
    assert_eq!(letter_of(&verbatim), Some('C'));
    let mut touched = drives_of(&vec![verbatim, p("d:\\x")], &p("D:\\b"));
    touched.sort();
    assert_eq!(touched, vec!['C', 'D']);
    assert_eq!(drives_of(&vec![p("c:\\a"), p("C:\\b")], &p("D:\\")).len(), 2);
    let mut q = CopyQueue::new();
    let job = |id: u64, from: &str, to: &str| QueuedCopy { id, sources: vec![p(from)], dest: p(to) };
    assert!(q.start_copy_job(job(1, "C:\\a", "D:\\")).is_some());
    assert!(q.start_copy_job(job(2, "D:\\b", "E:\\")).is_none());
    assert!(q.start_copy_job(job(3, "F:\\b", "G:\\")).is_some());
    assert!(q.start_copy_job(job(4, "E:\\b", "H:\\")).is_some());
    assert_eq!((q.running.len(), q.pending.len()), (3, 1));
    assert!(q.advance_copy_queue().is_empty());
    let s = q.settle(&vec![true, false, false], &vec![false]);
    assert_eq!((s.finished, s.dropped, s.launched.len()), (vec![1], vec![], 0));
    let s = q.settle(&vec![false, true], &vec![false]);
    assert_eq!((s.finished, s.dropped), (vec![4], vec![]));
    let ids: Vec<u64> = s.launched.iter().map(|j| j.id).collect();
    assert_eq!(ids, vec![2]);
    assert_eq!((q.running.len(), q.pending.len()), (2, 0));
}

#[test]
fn every_job_is_accounted_for() {
    let mut q = CopyQueue::new();
    let job = |id: u64, from: &str, to: &str| QueuedCopy { id, sources: vec![p(from)], dest: p(to) };
    assert!(q.start_copy_job(job(1, "C:\\a", "D:\\")).is_some());
    assert!(q.start_copy_job(job(2, "E:\\a", "F:\\")).is_some());
    for id in 3..7 {
        assert!(q.start_copy_job(job(id, "C:\\b", "D:\\")).is_none());
    }
    let s = q.settle(&vec![true, true], &vec![true, false, true, false]);
    assert_eq!(s.finished, vec![1, 2]);
    assert_eq!(s.dropped, vec![3, 5]);
    assert_eq!(s.launched.iter().map(|j| j.id).collect::<Vec<u64>>(), vec![4]);
    assert_eq!(q.running.iter().map(|j| j.id).collect::<Vec<u64>>(), vec![4]);
    assert_eq!(q.pending.iter().map(|j| j.id).collect::<Vec<u64>>(), vec![6]);
}

#[test]
fn a_job_is_prepared_for_its_sources() {
    let j = CopyJobState::prepared(&vec![p("C:\\a")], &p("D:\\b"), true, true, false);
    assert!(j.is_move && j.clear_clipboard && !j.no_undo && !j.done);
    assert_eq!(j.dest_display, "D:\\b");
    let given = p("D:\\b").written_as("D:/b");
    let shown = CopyJobState::prepared(&vec![p("C:\\a")], &given, true, true, false);
    assert_eq!(shown.dest_display, "D:/b");
    assert_eq!(j.original_sources.len(), 1);
    assert_eq!(j.original_sources[0].to_text(), "C:\\a");
    let j = CopyJobState::prepared(&Vec::new(), &p("D:\\"), false, false, true);
    assert!(!j.is_move && !j.clear_clipboard && j.no_undo && j.original_sources.is_empty());
}

/// A move of one file that finds another one at its target, up to the question.
fn asked(sources: Vec<FsPath>) -> (CopyRun, CopyJobState) {
    let mut j = CopyJobState::prepared(&sources, &p("D:\\"), true, false, false);
    let mut run = CopyRun::start(sources, p("D:\\"), &mut j, 0, 2, 9);
    run.on_source_inspected(&mut j, false);
    run.on_target_probed(&mut j, true);
    assert!(matches!(run.phase, CopyPhase::Compare));
    run.on_compared(&mut j, true, facts(4, 1), facts(5, 1));
    assert!(matches!(run.phase, CopyPhase::Ask));
    let q = j.conflict_query.as_ref().unwrap();
    assert_eq!((q.file_name.as_str(), q.src_size, q.dst_size), ("a.txt", 4, 5));
    (run, j)
}

#[test]
fn a_file_that_is_kept_out_of_a_move_stays() {
    for choice in [ConflictChoice::Skip, ConflictChoice::SkipAll, ConflictChoice::Abort] {
        let (mut run, mut j) = asked(vec![p("C:\\a.txt")]);
        run.on_answered(&mut j, choice);
        assert!(matches!(run.phase, CopyPhase::Finished));
        assert!(j.done && j.pasted_names.is_empty() && j.placed_sources.is_empty());
        assert_eq!(j.files_done, 1);
        assert!(undo_of(&j).is_none());
    }
    let (mut run, mut j) = asked(vec![p("C:\\a.txt"), p("C:\\b.txt")]);
    run.on_answered(&mut j, ConflictChoice::SkipAll);
    assert!(matches!(run.phase, CopyPhase::InspectSource));
    run.on_source_inspected(&mut j, false);
    run.on_target_probed(&mut j, true);
    run.on_compared(&mut j, true, facts(1, 1), facts(2, 1));
    assert!(j.done && j.pasted_names.is_empty());
    let (mut run, mut j) = asked(vec![p("C:\\a.txt"), p("C:\\b.txt")]);
    j.cancelled = true;
    run.on_unanswered(&mut j);
    assert!(j.done && j.pasted_names.is_empty());
}

#[test]
fn a_file_is_replaced_by_a_move_once_the_user_says_so() {
    let (mut run, mut j) = asked(vec![p("C:\\a.txt")]);
    run.on_answered(&mut j, ConflictChoice::Overwrite);
    assert!(matches!(run.phase, CopyPhase::CopyFile));
    run.on_file_copied(&mut j);
    assert!(matches!(run.phase, CopyPhase::Recycle));
    run.on_recycled(&mut j);
    assert_eq!(j.pasted_names, vec!["a.txt"]);
    match undo_of(&j) {
        Some(UndoAction::Move { sources, dest }) => {
            assert_eq!(sources.len(), 1);
            assert_eq!(sources[0].to_text(), "C:\\a.txt");
            assert_eq!(dest.to_text(), "D:\\");
        }
        _ => panic!("a move can be undone"),
    }
    j.no_undo = true;
    assert!(undo_of(&j).is_none());
}

#[test]
fn an_identical_file_completes_a_move() {
    let mut j = CopyJobState::new(true, String::new());
    let mut run = CopyRun::start(vec![p("C:\\a.txt")], p("D:\\"), &mut j, 0, 1, 4);
    run.on_source_inspected(&mut j, false);
    run.on_target_probed(&mut j, true);
    run.on_compared(&mut j, true, facts(4, 1), facts(4, 1));
    assert!(matches!(run.phase, CopyPhase::Recycle));
    assert_eq!(j.skipped_identical, vec!["a.txt"]);
}

#[test]
fn a_folder_of_which_a_file_was_left_out_stays() {
    for choice in [ConflictChoice::Skip, ConflictChoice::Abort, ConflictChoice::Overwrite] {
        let mut j = CopyJobState::new(true, String::new());
        let mut run = CopyRun::start(vec![p("C:\\f")], p("D:\\"), &mut j, 0, 2, 9);
        run.on_source_inspected(&mut j, true);
        run.on_target_probed(&mut j, true);
        run.on_dir_listed(&mut j, &vec!["x".to_string(), "y".to_string()]);
        run.on_entry_inspected(&mut j, false);
        run.on_compared(&mut j, false, facts(1, 1), None);
        run.on_file_copied(&mut j);
        run.on_entry_inspected(&mut j, false);
        run.on_compared(&mut j, true, facts(1, 1), facts(2, 1));
        run.on_answered(&mut j, choice);
        if choice == ConflictChoice::Overwrite {
            run.on_file_copied(&mut j);
            assert!(matches!(run.phase, CopyPhase::Recycle));
        } else {
            assert!(matches!(run.phase, CopyPhase::Finished));
            assert!(j.pasted_names.is_empty());
        }
        assert_eq!(j.files_done, j.files_total);
    }
}

#[test]
fn the_first_error_is_kept() {
    let mut j = CopyJobState::new(false, String::new());
    let sources = vec![p("C:\\a"), p("C:\\a\\b"), p("C:\\z")];
    let mut run = CopyRun::start(sources, p("C:\\a\\b\\c"), &mut j, 0, 0, 0);
    run.on_source_inspected(&mut j, true);
    run.on_source_inspected(&mut j, true);
    let first = "Refusing unsafe operation: destination is inside source (C:\\a)";
    assert_eq!(j.error.as_deref(), Some(first));
    run.on_source_inspected(&mut j, true);
    run.on_refused(&mut j, false, "no");
    assert_eq!(j.error.as_deref(), Some(first));
}
