//! Shortcut files.
use crate::paths::{file_stem, stem_of, FsPath, PathView};
use crate::text::{ends_with, has_suffix, joined, lowercase, to_lower};
use crate::wide::{before_zero, decode_lossy, text_before_zero};
use vstd::prelude::*;

verus! {

/// The name of a shortcut to `target`.
pub open spec fn shortcut_name(target: PathView) -> Seq<char> {
    (match target.file_name() {
        Some(n) => stem_of(n),
        None => "shortcut"@,
    }) + ".lnk"@
}

/// Where a shortcut to `target` stands in the folder `dest`.
pub fn shortcut_path(target: &FsPath, dest: &FsPath) -> (r: FsPath)
    ensures
        r@ == dest@.join(shortcut_name(target@)),
{
    let name = match target.file_name() {
        Some(n) => joined(file_stem(n.as_str()).as_str(), ".lnk"),
        None => joined("shortcut", ".lnk"),
    };
    dest.join(name.as_str())
}

/// Whether `name` is the name of a shortcut.
pub fn is_shortcut(name: &str) -> (r: bool)
    ensures
        r == ends_with(lowercase(name@), ".lnk"@),
{
    names_shortcut(to_lower(name).as_str())
}

/// Whether a name in small letters is the name of a shortcut.
pub fn names_shortcut(lower: &str) -> (r: bool)
    ensures
        r == ends_with(lower@, ".lnk"@),
{
    has_suffix(lower, ".lnk")
}

/// The target that the shell has written into `units`, which ends at the first zero; none where
/// nothing stands before it.
pub fn shortcut_target(units: &Vec<u16>) -> (r: Option<String>)
    ensures
        match r {
            Some(t) => t@ == decode_lossy(before_zero(units@)) && t@.len() > 0,
            None => decode_lossy(before_zero(units@)).len() == 0,
        },
{
    let t = text_before_zero(units);
    if t.unicode_len() == 0 {
        None
    } else {
        Some(t)
    }
}

/// A shortcut is called like what it leads to, with its own extension in place of that one's.
pub proof fn a_shortcut_is_called_like_its_target(dir: PathView, stem: Seq<char>, ext: Seq<char>)
    requires
        stem.len() > 0,
        ext.len() > 0,
        forall|i: int| 0 <= i < ext.len() ==> #[trigger] ext[i] != '.',
    ensures
        shortcut_name(dir.join(stem + seq!['.'] + ext)) == stem + ".lnk"@,
        shortcut_name(dir.join(ext)) == ext + ".lnk"@,
        dir.names.len() == 0 ==> shortcut_name(dir) == "shortcut"@ + ".lnk"@,
        ends_with(shortcut_name(dir), ".lnk"@),
{
    let name = stem + seq!['.'] + ext;
    crate::paths::the_last_dot_splits_a_name(stem, ext);
    crate::paths::an_entry_has_the_names_of_its_folder(dir, name);
    crate::paths::an_entry_has_the_names_of_its_folder(dir, ext);
    assert(ext[ext.len() - 1] != '.');
    assert(name.last() == ext.last());
    assert(name != seq!['.'] && name != seq!['.', '.']);
    assert(ext != seq!['.'] && ext != seq!['.', '.']);
    let start = match dir.file_name() {
        Some(n) => stem_of(n),
        None => "shortcut"@,
    };
    crate::text::a_part_is_found(start, ".lnk"@, Seq::empty());
}

} // verus!
