//! Paths, keys of paths and maps by paths.
use rusplorer::path_keys::{
    format_path_display, normalize_tree_dir_key, normalize_windows_path_for_compare,
    strip_separators, tree_dir_key_eq, windows_path_eq,
};
use rusplorer::paths::{extension, file_stem, is_listed, names_entry, FsPath, PathMap, PathPrefix};

/// The path that is written as `s`, such as `C:\a\b`.
fn p(s: &str) -> FsPath {
    let mut rest = s;
    let mut prefix = PathPrefix::Bare;
    let bytes = s.as_bytes();
    if bytes.len() >= 2 && bytes[1] == b':' {
        prefix = PathPrefix::Disk(bytes[0]);
        rest = &s[2..];
    }
    let rooted = rest.starts_with('\\');
    let names = rest.split('\\').filter(|n| !n.is_empty()).map(|n| n.to_string()).collect();
    FsPath::plain(prefix, rooted, names)
}

#[test]
fn names_split_into_stem_and_extension() {
    assert_eq!(file_stem("a.tar.gz"), "a.tar");
    assert_eq!(extension("a.tar.gz"), Some("gz".to_string()));
    assert_eq!(file_stem(".gitignore"), ".gitignore");
    assert_eq!(extension(".gitignore"), None);
    assert_eq!(extension("end."), Some(String::new()));
    assert_eq!(file_stem("end."), "end");
    assert_eq!(extension("plain"), None);
}

#[test]
fn paths_have_parents_names_and_entries() {
    let d = p("C:\\a\\b");
    assert_eq!(d.to_text(), "C:\\a\\b");
    assert_eq!(d.parent().unwrap().to_text(), "C:\\a");
    assert_eq!(d.file_name(), Some("b".to_string()));
    assert_eq!(d.join("c").to_text(), "C:\\a\\b\\c");
    assert!(p("C:\\").parent().is_none());
    assert_eq!(p("C:\\").file_name(), None);
    assert_eq!(p("C:\\a\\..").file_name(), None);
    assert_eq!(d.component_count(), 4);
    assert!(!names_entry(".."));
}

#[test]
fn an_entry_lies_in_its_directory() {
    let d = p("C:\\a");
    let e = d.join("b");
    assert!(e.starts_with(&d));
    assert!(e.join("c").starts_with(&d));
    assert!(!d.starts_with(&e));
    assert!(!p("C:\\ab").starts_with(&d));
    assert!(!p("D:\\a\\b").starts_with(&d));
    assert!(d.same(&p("C:\\a")));
    assert!(!d.same(&e));
}

#[test]
fn a_map_by_paths_keeps_the_order_of_its_keys() {
    let mut m: PathMap<u32> = PathMap::new();
    m.insert(&p("C:\\b"), 1);
    m.insert(&p("C:\\a"), 2);
    m.insert(&p("C:\\b"), 3);
    assert_eq!(m.len(), 2);
    assert_eq!(m.get(&p("C:\\b")), Some(&3));
    assert_eq!(m.key_at(0).to_text(), "C:\\b");
    m.remove_all(&vec![p("C:\\b"), p("C:\\x")]);
    assert!(!m.contains(&p("C:\\b")));
    assert!(m.contains(&p("C:\\a")));
    m.remove(&p("C:\\a"));
    assert_eq!(m.len(), 0);
    assert!(is_listed(&p("C:\\a"), &vec![p("C:\\z"), p("C:\\a")]));
}

#[test]
fn spelling_does_not_matter_for_comparing_windows_paths() {
    assert_eq!(normalize_windows_path_for_compare("\\\\?\\C:/A/B\\"), "c:\\a\\b");
    assert_eq!(normalize_windows_path_for_compare("C:\\"), "c:\\");
    assert!(windows_path_eq("C:\\A\\b", "c:/a/B/"));
    assert!(!windows_path_eq("C:\\a", "C:\\b"));
    let key = normalize_windows_path_for_compare("D:/X\\\\");
    assert_eq!(normalize_windows_path_for_compare(&key), key);
}

#[test]
fn spelling_does_not_matter_for_folders_of_the_tree() {
    assert_eq!(normalize_tree_dir_key("C:\\Users\\"), "c:\\users");
    assert!(tree_dir_key_eq("C:\\USERS", "c:\\users\\/"));
    assert!(!tree_dir_key_eq("C:\\a", "C:\\b"));
    assert_eq!(strip_separators("C:\\"), "C:");
    assert_eq!(format_path_display("C:\\a\\b"), "C:/a/b");
}

#[test]
fn a_path_is_written_with_the_separator_of_its_system() {
    let mut path = p("\\a\\b");
    assert_eq!(path.to_text(), "\\a\\b");
    path.prefix = PathPrefix::Unix;
    assert_eq!(path.to_text(), "/a/b");
    assert_eq!(path.join("c").to_text(), "/a/b/c");
    assert_eq!(path.component_count(), 3);
    assert!(!path.same(&p("\\a\\b")));
}

#[test]
fn a_typed_text_leads_on_from_a_folder() {
    let dir = p("C:\\d\\e");
    let led = |text: &str| dir.join_text(text).to_text();
    assert_eq!(led("new"), "C:\\d\\e\\new");
    assert_eq!(dir.join_text("new").names.len(), 3);
    assert_eq!(led("sub/x"), "C:\\d\\e\\sub/x");
    assert!(dir.join_text("sub/x").same(&p("C:\\d\\e\\sub\\x")));
    assert_eq!(dir.join_text("sub/x").names.len(), 4);
    assert_eq!(led(".\\sub\\\\x\\"), "C:\\d\\e\\.\\sub\\\\x\\");
    assert!(dir.join_text(".\\sub\\\\x\\").same(&p("C:\\d\\e\\sub\\x")));
    assert_eq!(led("..\\x"), "C:\\d\\e\\..\\x");
    assert_eq!(led("\\x"), "C:\\x");
    assert_eq!(led("F:\\x"), "F:\\x");
    assert_eq!(led("F:x"), "F:x");
    assert_eq!(led("f:/x"), "f:/x");
    assert!(dir.join_text("f:/x").same(&p("F:\\x")));
    assert_eq!(led("//server/share/x"), "//server/share/x");
    assert!(dir.join_text("//server/share/x").same(&dir.join_text("\\\\server\\share\\x")));
    let mut unix = p("\\d");
    unix.prefix = PathPrefix::Unix;
    assert_eq!(unix.join_text("a\\b").names, vec!["d", "a\\b"]);
    assert_eq!(unix.join_text("C:x").names, vec!["d", "C:x"]);
    assert_eq!(unix.join_text("s/x").to_text(), "/d/s/x");
    assert_eq!(unix.join_text("/x").to_text(), "/x");
}

#[test]
fn paths_are_written_as_they_were_given() {
    let users = p("C:\\Users\\me").written_as("C:/Users//me");
    assert_eq!(users.to_text(), "C:/Users//me");
    assert_eq!(users.join("x").to_text(), "C:/Users//me\\x");
    assert_eq!(users.parent().unwrap().to_text(), "C:/Users");
    assert_eq!(users.parent().unwrap().parent().unwrap().to_text(), "C:/");
    assert_eq!(users.usual().to_text(), "C:\\Users\\me");
    let folder = p("C:\\Users").written_as("C:\\Users\\");
    assert_eq!(folder.to_text(), "C:\\Users\\");
    assert_eq!(folder.join("x").to_text(), "C:\\Users\\x");
    assert_eq!(p("C:\\a").written_as("c:\\a").to_text(), "c:\\a");
    assert_eq!(p("C:\\a").written_as("d:\\a").to_text(), "C:\\a");
    assert_eq!(p("C:\\a").written_as("C:\\b").to_text(), "C:\\a");
    let unix = |rooted: bool, names: &[&str]| {
        let names = names.iter().map(|n| n.to_string()).collect();
        FsPath::plain(PathPrefix::Unix, rooted, names)
    };
    assert_eq!(unix(false, &["a", "b"]).written_as("a//b").to_text(), "a//b");
    assert_eq!(unix(false, &["a", "b"]).written_as("a/./b/.").to_text(), "a/./b/.");
    assert_eq!(unix(false, &["."]).written_as("./.").to_text(), "./.");
    assert_eq!(unix(true, &[]).written_as("//").to_text(), "//");
    assert_eq!(unix(true, &[]).written_as("//").join("a").to_text(), "//a");
    assert_eq!(unix(true, &["a\\b"]).written_as("/a/b").to_text(), "/a\\b");
}

#[test]
fn a_path_is_the_same_however_it_is_written() {
    let usual = p("C:\\a\\b");
    let other = p("C:\\a\\b").written_as("c:/a\\\\b/");
    assert_eq!(other.to_text(), "c:/a\\\\b/");
    assert!(other.same(&usual));
    assert!(other.starts_with(&p("C:\\a")));
    assert!(is_listed(&other, &vec![usual.copy()]));
    let mut m: PathMap<u8> = PathMap::new();
    m.insert(&usual, 1);
    m.insert(&other, 2);
    assert_eq!(m.len(), 1);
    assert_eq!(m.get(&usual), Some(&2));
    assert_eq!(m.key_at(0).to_text(), "C:\\a\\b");
}
