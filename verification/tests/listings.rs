//! Listings, the tree, sorting and sets of names.
use rusplorer::listing::{
    background_work, filter_rows, names_parent, row_passes, shown_time, thread_count,
    ChangeEffect, Listing, WatchEventKind,
};
use rusplorer::names::NameSet;
use rusplorer::paths::{FsPath, PathPrefix};
use rusplorer::sorting::{sorted_order, sorted_texts, SortKey};
use rusplorer::tree::{is_valid_drop, node_look, read_dir_children, TreeContext, TreeState};
use rusplorer::types::{FileEntry, Rgb, SortColumn};

/// The path that is written as `s`, such as `C:\a\b`.
fn p(s: &str) -> FsPath {
    let mut rest = s;
    let mut prefix = PathPrefix::Bare;
    let bytes = s.as_bytes();
    if bytes.len() >= 2 && bytes[1] == b':' {
        prefix = PathPrefix::Disk(bytes[0]);
        rest = &s[2..];
    }
    let rooted = rest.starts_with('\\');
    let names = rest.split('\\').filter(|n| !n.is_empty()).map(|n| n.to_string()).collect();
    FsPath::plain(prefix, rooted, names)
}

fn entry(name: &str, is_dir: bool, modified: Option<i128>) -> FileEntry {
    FileEntry { name: name.to_string(), is_dir, modified }
}

fn row_names(rows: &[FileEntry]) -> Vec<String> {
    rows.iter().map(|r| r.name.clone()).collect()
}

#[test]
fn a_set_holds_a_name_once() {
    let mut s = NameSet::of("a");
    s.insert("b");
    s.insert("a");
    assert_eq!(s.len(), 2);
    assert_eq!(s.name_at(1), "b");
    s.remove("a");
    assert!(!s.contains("a") && s.contains("b"));
    s.clear();
    assert_eq!(s.len(), 0);
}

#[test]
fn sorting_is_stable_and_turns_about_within_ranks() {
    let key = |rank: u8, v: i128| SortKey { rank, value: vec![v] };
    let keys = vec![key(1, 5), key(0, 9), key(1, 5), key(1, 3)];
    assert_eq!(sorted_order(&keys, true), vec![1, 3, 0, 2]);
    assert_eq!(sorted_order(&keys, false), vec![1, 0, 2, 3]);
    let texts = vec!["b".to_string(), "\u{e4}".to_string(), "a".to_string(), "ab".to_string()];
    assert_eq!(sorted_texts(&texts), vec![2, 3, 0, 1]);
}

#[test]
fn a_listing_shows_the_way_up_folders_and_files() {
    let mut l = Listing::new();
    let found = vec![
        entry("b.txt", false, Some(2)),
        entry("Z", true, None),
        entry("A.txt", false, Some(3)),
        entry("a", true, None),
    ];
    l.refresh_contents(&p("C:\\d"), Some(&found), SortColumn::Name, true);
    assert_eq!(row_names(&l.rows), vec!["[..] Parent Directory", "a", "Z", "A.txt", "b.txt"]);
    l.sort_contents(SortColumn::Date, false);
    assert_eq!(row_names(&l.rows)[3..], ["A.txt", "b.txt"]);
    l.refresh_contents(&p("C:\\"), Some(&found), SortColumn::Name, false);
    assert_eq!(row_names(&l.rows), vec!["Z", "a", "b.txt", "A.txt"]);
    assert!(names_parent("[..] Parent Directory"));
}

#[test]
fn sizes_arrive_and_the_largest_is_known() {
    let mut l = Listing::new();
    let found = vec![entry("a", false, None), entry("b", false, None), entry("d", true, None)];
    l.refresh_contents(&p("C:\\"), Some(&found), SortColumn::Size, true);
    l.size_received("a", 10);
    l.size_received("b", 30);
    l.size_received("d", 20);
    assert_eq!(l.max_size, 30);
    l.sort_contents(SortColumn::Size, false);
    assert_eq!(row_names(&l.rows), vec!["d", "b", "a"]);
    assert!(l.is_computing(&entry("d", true, None)));
    l.dir_done("d");
    assert!(!l.is_computing(&entry("d", true, None)));
    assert_eq!(l.on_size_checked("b", 5), (true, true));
    l.recompute_max();
    assert_eq!(l.max_size, 20);
    assert_eq!(l.on_size_checked("b", 5), (false, false));
}

#[test]
fn changes_relist_only_what_they_must() {
    let mut l = Listing::new();
    let found = vec![entry("a", false, None), entry("d", true, None)];
    l.refresh_contents(&p("C:\\x"), Some(&found), SortColumn::Name, true);
    let here = p("C:\\x");
    assert!(l.on_change(&here, WatchEventKind::Modify, &p("C:\\x\\a"), 5) == ChangeEffect::CheckSize);
    assert!(l.on_change(&here, WatchEventKind::Structure, &p("C:\\y\\a"), 5) == ChangeEffect::Ignore);
    assert!(!l.flush_watch_debounce(9999));
    assert!(l.on_change(&here, WatchEventKind::Modify, &p("C:\\x\\d"), 100) == ChangeEffect::Relist);
    assert!(!l.flush_watch_debounce(599));
    assert!(l.on_change(&here, WatchEventKind::Structure, &p("C:\\x\\new"), 200) == ChangeEffect::Relist);
    assert!(!l.flush_watch_debounce(699));
    assert!(l.flush_watch_debounce(700));
    assert!(!l.flush_watch_debounce(9999));
}

#[test]
fn work_in_the_background_leaves_out_the_way_up() {
    let rows = vec![entry("[..] Parent Directory", true, None), entry("d", true, None), entry("f", false, None)];
    assert_eq!(background_work(&rows), (vec!["f".to_string()], vec!["d".to_string()]));
    assert_eq!(thread_count(Some(8), 3), 3);
    assert_eq!(thread_count(None, 9), 4);
    assert_eq!(thread_count(Some(8), 0), 1);
    assert_eq!(shown_time(None, Some(4)), Some(4));
}

#[test]
fn a_filter_ignores_letter_case_and_keeps_the_way_up() {
    let rows = vec![entry("[..] Parent Directory", true, None), entry("ReadMe.md", false, None), entry("x", false, None)];
    assert_eq!(row_names(&filter_rows(&rows, "\u{c9}")), vec!["[..] Parent Directory"]);
    assert_eq!(row_names(&filter_rows(&rows, "README")), vec!["[..] Parent Directory", "ReadMe.md"]);
    assert_eq!(filter_rows(&rows, "").len(), 3);
    assert!(row_passes("\u{c9}T", "\u{e9}t", "\u{c9}", "\u{e9}"));
}

#[test]
fn the_tree_lists_folders_by_name() {
    let found = vec![(p("C:\\b"), true), (p("C:\\f.txt"), false), (p("C:\\A"), true)];
    let names: Vec<String> = read_dir_children(&found).iter().map(|c| c.to_text()).collect();
    assert_eq!(names, vec!["C:\\A", "C:\\b"]);
}

#[test]
fn the_tree_opens_the_way_down() {
    let mut t = TreeState::new();
    let missing = t.expand_tree_to(&p("C:\\a\\b"));
    let told: Vec<String> = missing.iter().map(|c| c.to_text()).collect();
    assert!(told.contains(&"C:\\a".to_string()));
    assert!(t.expanded.contains(&p("C:\\a")));
    let c = t.click(&p("C:\\a"), &p("C:\\a\\b"));
    assert!(!t.expanded.contains(&p("C:\\a")));
    assert!(c.navigate);
    t.click(&p("C:\\a"), &p("C:\\a\\b"));
    assert!(t.expanded.contains(&p("C:\\a")));
}

#[test]
fn the_tree_forgets_deleted_folders() {
    let mut t = TreeState::new();
    t.refresh_tree_children_for_dir(&p("C:\\a"), &vec![p("C:\\a\\x")]);
    t.refresh_tree_children_for_dir(&p("C:\\a\\x"), &Vec::new());
    let again = t.invalidate_tree_after_delete(&vec![p("C:\\a\\x")]);
    assert!(!t.children.contains(&p("C:\\a\\x")));
    assert_eq!(again.len(), 1);
    assert_eq!(again[0].to_text(), "C:\\a");
    t.refresh_tree_children_for_dir(&p("c:\\A"), &Vec::new());
    assert_eq!(t.children.get(&p("C:\\a")).unwrap().len(), 0);
    assert_eq!(t.children.get(&p("c:\\A")).unwrap().len(), 0);
}

#[test]
fn a_node_shows_what_it_is() {
    let mut context = TreeContext {
        current: p("C:\\a\\b"),
        dnd_active: false,
        dnd_sources: Vec::new(),
        drop_target: None,
        highlight: None,
    };
    let t = TreeState::new();
    let look = node_look(&t, &p("C:\\a"), &context);
    assert!(look.is_ancestor && !look.is_current);
    assert_eq!(look.name, "a");
    assert!(node_look(&t, &p("C:\\a\\b"), &context).is_current);
    context.dnd_active = true;
    context.dnd_sources = vec![p("C:\\s")];
    context.drop_target = Some(p("C:\\t"));
    assert!(node_look(&t, &p("C:\\t"), &context).is_drop_target);
    assert!(node_look(&t, &p("C:\\t"), &context).fill == Rgb { r: 80, g: 200, b: 80 });
    assert!(is_valid_drop(&p("C:\\t"), &context));
    assert!(!is_valid_drop(&p("C:\\s"), &context));
}
