//! Browsing: tabs, history, breadcrumbs, favorites and sessions.
use rusplorer::favorites::{name_to_show, Favorites};
use rusplorer::navigation::{drag_tab, get_breadcrumbs, Browser, LoadPlan};
use rusplorer::paths::{FsPath, PathMap, PathPrefix};
use rusplorer::session::{
    config_path, count_desktop_attempt, first_config, is_good_status, lacks_adapter, read_flag,
    save_status, session_folder, shown_label, start_path, title_for, toggle_flag, window_title,
    write_minute, LocalMinute,
};
use rusplorer::types::{SortColumn, TabState};

/// The path that is written as `s`, such as `C:\a\b`.
fn p(s: &str) -> FsPath {
    let mut rest = s;
    let mut prefix = PathPrefix::Bare;
    let bytes = s.as_bytes();
    if bytes.len() >= 2 && bytes[1] == b':' {
        prefix = PathPrefix::Disk(bytes[0]);
        rest = &s[2..];
    }
    let rooted = rest.starts_with('\\');
    let names = rest.split('\\').filter(|n| !n.is_empty()).map(|n| n.to_string()).collect();
    FsPath::plain(prefix, rooted, names)
}

fn browser(path: &str) -> Browser {
    Browser::new(p(path), SortColumn::Name, true)
}

fn texts_of(v: &[FsPath]) -> Vec<String> {
    v.iter().map(|x| x.to_text()).collect()
}

#[test]
fn back_and_forward_undo_each_other() {
    let mut b = browser("C:\\");
    assert!(b.navigate_to(p("C:\\a"), false) == LoadPlan::LoadNow);
    assert!(b.navigate_to(p("D:\\x"), true) == LoadPlan::Probe);
    assert_eq!(b.loading_path.as_ref().unwrap().to_text(), "D:\\x");
    assert!(b.on_probe(true) == LoadPlan::LoadNow);
    assert_eq!(b.back_path().unwrap().to_text(), "C:\\a");
    assert!(b.go_back(false) == LoadPlan::LoadNow);
    assert_eq!(b.current.path.to_text(), "C:\\a");
    assert_eq!(texts_of(&b.current.forward_history), vec!["D:\\x"]);
    assert_eq!(b.forward_path().unwrap().to_text(), "D:\\x");
    b.go_forward(false);
    assert_eq!(b.current.path.to_text(), "D:\\x");
    assert_eq!(texts_of(&b.current.back_history), vec!["C:\\", "C:\\a"]);
    b.go_back(false);
    b.navigate_to(p("C:\\b"), false);
    assert!(b.current.forward_history.is_empty());
    assert!(b.go_forward(false) == LoadPlan::Nothing);
}

#[test]
fn navigating_nowhere_keeps_the_history() {
    let mut b = browser("C:\\a");
    b.navigate_to(p("C:\\a"), false);
    assert!(b.current.back_history.is_empty());
    assert!(b.go_back(false) == LoadPlan::Nothing);
    assert!(b.on_probe(false) == LoadPlan::Nothing);
}

#[test]
fn tabs_keep_what_they_show() {
    let mut b = browser("C:\\a");
    b.new_tab(Some(p("C:\\b")));
    b.new_tab(None);
    assert_eq!((b.tabs.len(), b.active_tab), (3, 2));
    assert_eq!(b.current.path.to_text(), "C:\\b");
    b.navigate_to(p("C:\\c"), false);
    assert!(b.switch_to_tab(0) == LoadPlan::LoadNow);
    assert_eq!(b.current.path.to_text(), "C:\\a");
    assert!(b.switch_to_tab(0) == LoadPlan::Nothing);
    b.switch_to_tab(2);
    assert_eq!(b.current.path.to_text(), "C:\\c");
    assert_eq!(texts_of(&b.current.back_history), vec!["C:\\b"]);
    assert!(b.close_tab(0) == LoadPlan::Nothing);
    assert_eq!((b.tabs.len(), b.active_tab), (2, 1));
    assert_eq!(b.current.path.to_text(), "C:\\c");
    assert!(b.close_tab(1) == LoadPlan::LoadNow);
    assert_eq!(b.current.path.to_text(), "C:\\b");
    assert!(b.close_tab(0) == LoadPlan::Nothing);
    assert_eq!(b.tabs.len(), 1);
}

#[test]
fn tabs_change_places() {
    let mut b = browser("C:\\a");
    b.new_tab(Some(p("C:\\b")));
    b.navigate_to(p("C:\\c"), false);
    b.swap_tabs(1, 0);
    assert_eq!(b.active_tab, 0);
    assert_eq!(b.current.path.to_text(), "C:\\c");
    assert_eq!(b.tabs[0].path.to_text(), "C:\\c");
    assert_eq!(b.tabs[1].path.to_text(), "C:\\a");
    b.swap_tabs(0, 1);
    assert_eq!((b.active_tab, b.tabs[1].path.to_text()), (1, "C:\\c".to_string()));
}

#[test]
fn a_session_comes_up_again() {
    let mut b = browser("C:\\a");
    b.navigate_to(p("C:\\x"), false);
    b.navigate_to(p("C:\\a"), false);
    b.navigate_to(p("C:\\y"), false);
    b.go_back(false);
    b.current.filter = "txt".to_string();
    b.new_tab(Some(p("C:\\b")));
    b.switch_to_tab(0);
    b.save_active_tab();
    let tabs: Vec<TabState> = b.tabs.iter().map(|t| t.copy()).collect();
    let kept: Vec<TabState> = b.tabs.iter().map(|t| t.copy()).collect();
    let again = Browser::start(Some((tabs, b.active_tab)), None, None, p("D:\\"), SortColumn::Size, false);
    assert_eq!((again.tabs.len(), again.active_tab), (2, 0));
    assert_eq!(again.current.path.to_text(), "C:\\a");
    assert!(again.current.sort_column == SortColumn::Size && !again.current.sort_ascending);
    assert_eq!(texts_of(&again.current.back_history), vec!["C:\\a", "C:\\x"]);
    assert_eq!(texts_of(&again.current.forward_history), vec!["C:\\y"]);
    assert_eq!(again.current.filter, "txt");
    let again = Browser::start(None, Some(kept), Some(9), p("D:\\"), SortColumn::Name, true);
    assert_eq!(again.current.path.to_text(), "C:\\b");
    let again = Browser::start(Some((Vec::new(), 0)), None, None, p("D:\\"), SortColumn::Name, true);
    assert_eq!((again.tabs.len(), again.current.path.to_text()), (1, "D:\\".to_string()));
}

#[test]
fn breadcrumbs_lead_up() {
    let crumbs = get_breadcrumbs(&p("C:\\a\\b"));
    let told: Vec<(String, String)> = crumbs.iter().map(|c| (c.0.to_text(), c.1.clone())).collect();
    assert_eq!(
        told,
        vec![
            ("C:\\a".to_string(), "a".to_string()),
            ("C:\\a\\b".to_string(), "b".to_string())
        ]
    );
}

#[test]
fn favorites_are_sorted_by_the_names_they_go_by() {
    let mut f = Favorites::load(&vec![p("D:\\zoo"), p("C:\\Apple"), p("E:\\")]);
    assert_eq!(texts_of(&f.paths), vec!["C:\\Apple", "E:\\", "D:\\zoo"]);
    assert!(f.insert(&p("C:\\banana")));
    assert!(!f.insert(&p("C:\\banana")));
    assert_eq!(f.to_texts(), vec!["C:\\Apple", "C:\\banana", "E:\\", "D:\\zoo"]);
    f.remove(0);
    assert_eq!(texts_of(&f.paths), vec!["C:\\banana", "E:\\", "D:\\zoo"]);
    assert_eq!(name_to_show(&p("E:\\")), "E:\\");
    let mut g = Favorites::load(&vec![p("C:\\x\\\u{c9}a"), p("C:\\y\\\u{e9}A")]);
    assert_eq!(texts_of(&g.paths)[0], "C:\\x\\\u{c9}a");
    assert!(g.insert(&p("C:\\\u{e9}")));
    assert_eq!(texts_of(&g.paths)[0], "C:\\\u{e9}");
}

#[test]
fn settings_stand_beside_the_program() {
    assert_eq!(config_path(Some(p("C:\\p\\r.exe"))).to_text(), "C:\\p\\rusplorer.config.json");
    assert_eq!(config_path(None).to_text(), "rusplorer.config.json");
    assert_eq!(session_folder(Some(p("C:\\p\\r.exe"))).to_text(), "C:\\p");
    assert_eq!(session_folder(None).to_text(), ".");
    let c = first_config();
    assert_eq!(c.last_path, "C:\\");
    assert!(c.sort_ascending && c.tabs.is_none() && c.favorites.is_empty());
    assert_eq!(start_path(p("D:\\x"), true).to_text(), "D:\\x");
    assert_eq!(start_path(p("D:\\x"), false).to_text(), "C:\\");
    let mut flags: PathMap<bool> = PathMap::new();
    assert!(!read_flag(&flags, &p("C:\\a")));
    assert!(toggle_flag(&mut flags, &p("C:\\a")));
    assert!(read_flag(&flags, &p("C:\\a")));
    assert!(!toggle_flag(&mut flags, &p("C:\\a")));
}

#[test]
fn only_a_saved_session_is_shown_as_good_news() {
    assert_eq!(save_status("C:\\s", None), "Saved to C:\\s");
    assert!(is_good_status(&save_status("C:\\s", None)));
    assert_eq!(save_status("C:\\s", Some("Saved")), "Error: Saved");
    assert!(!is_good_status(&save_status("C:\\s", Some("Saved"))));
}

#[test]
fn the_title_tells_the_time_of_the_start() {
    let now = LocalMinute { year: 2026, month: 2, day: 7, hour: 4, minute: 5 };
    assert_eq!(write_minute(now), "2026-02-07 04:05");
    assert_eq!(window_title(Some("rusplorer_DEV"), now), "Rusplorer (dev) (2026-02-07 04:05)");
    assert_eq!(window_title(Some("rusplorer"), now), "Rusplorer (2026-02-07 04:05)");
    assert_eq!(title_for(None, now), "Rusplorer (2026-02-07 04:05)");
    assert!(lacks_adapter("Wgpu(NoSuitableAdapterFound)"));
    assert!(!lacks_adapter("other"));
    assert_eq!(count_desktop_attempt(0, false), (1, false));
    assert_eq!(count_desktop_attempt(3, true), (4, true));
    assert_eq!(count_desktop_attempt(9, false), (10, true));
}

#[test]
fn long_labels_are_cut() {
    assert_eq!(shown_label("12345678901234567890"), "12345678901234567890");
    assert_eq!(shown_label("123456789012345678901"), "1234567890123456789\u{ef}\u{bf}\u{bd}");
}

#[test]
fn a_dragged_tab_changes_places() {
    assert_eq!(drag_tab(None, Some(1), Some(1), true, false), (None, None));
    assert_eq!(drag_tab(None, Some(1), Some(1), true, true), (Some(1), None));
    assert_eq!(drag_tab(None, None, Some(1), true, true), (None, None));
    assert_eq!(drag_tab(Some(1), Some(1), Some(2), true, true), (Some(2), Some((1, 2))));
    assert_eq!(drag_tab(Some(1), Some(1), None, true, true), (Some(1), None));
    assert_eq!(drag_tab(Some(1), Some(1), None, false, false), (None, None));
    assert_eq!(drag_tab(Some(1), Some(1), Some(0), false, false), (Some(0), Some((1, 0))));
}

#[test]
fn a_tab_on_a_root_shows_its_path_as_it_was_given() {
    assert_eq!(TabState::new(p("C:\\a\\b")).label(), "b");
    assert_eq!(TabState::new(p("C:\\")).label(), "C:\\");
    assert_eq!(TabState::new(p("C:\\").written_as("c:/")).label(), "c:/");
    let mut b = browser("C:\\a");
    b.navigate_to(p("D:\\").written_as("D:/"), false);
    assert_eq!(b.current.path.to_text(), "D:/");
    assert_eq!(b.current.back_history.len(), 1);
    b.navigate_to(p("D:\\"), false);
    assert_eq!(b.current.path.to_text(), "D:\\");
    assert_eq!(b.current.back_history.len(), 1);
}
