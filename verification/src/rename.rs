//! Names for new and for renamed entries.
use crate::copy_job::{name_or_empty, shown_name};
use crate::paths::{dotted_extension, extension, file_stem, name_splits, stem_of, FsPath, PathView};
use crate::selection::{find_row, row_of, Selection};
use crate::text::{chars_of, ends_with, has_suffix, joined, text_between, trim, trimmed};
use crate::typed::is_one_name;
use crate::types::{entry_views, FileEntry};
use vstd::prelude::*;

verus! {

/// The dialog that asks for a name.
pub struct NameDialog {
    /// The path of the entry; for a new folder, that of the folder it is made in.
    pub path: FsPath,
    /// What stands in the field.
    pub buffer: String,
    /// The extension of the entry with its dot; nothing where it has none.
    pub ext: String,
    /// The extension stands in the field.
    pub show_ext: bool,
    /// The name is for a new folder.
    pub new_folder: bool,
}

/// The view of a `NameDialog`.
#[verifier::ext_equal]
pub struct DialogView {
    pub path: PathView,
    pub buffer: Seq<char>,
    pub ext: Seq<char>,
    pub show_ext: bool,
    pub new_folder: bool,
}

impl View for NameDialog {
    type V = DialogView;

    open spec fn view(&self) -> DialogView {
        DialogView {
            path: self.path@,
            buffer: self.buffer@,
            ext: self.ext@,
            show_ext: self.show_ext,
            new_folder: self.new_folder,
        }
    }
}

/// What was asked for: a new folder, by its path and its name, or another path for an entry.
pub enum Naming {
    CreateFolder { path: FsPath, name: String },
    Rename { old_path: FsPath, new_path: FsPath },
}

/// The view of a `Naming`.
pub enum NamingView {
    CreateFolder { path: PathView, name: Seq<char> },
    Rename { old_path: PathView, new_path: PathView },
}

impl View for Naming {
    type V = NamingView;

    open spec fn view(&self) -> NamingView {
        match *self {
            Naming::CreateFolder { path, name } => NamingView::CreateFolder {
                path: path@,
                name: name@,
            },
            Naming::Rename { old_path, new_path } => NamingView::Rename {
                old_path: old_path@,
                new_path: new_path@,
            },
        }
    }
}

impl DialogView {
    /// The dialog that renames an entry: the field holds its name without the extension.
    pub open spec fn renaming(path: PathView) -> DialogView {
        DialogView {
            path,
            buffer: stem_of(shown_name(path)),
            ext: dotted_extension(shown_name(path)),
            show_ext: false,
            new_folder: false,
        }
    }

    /// The dialog that asks for the name of a new folder in `dir`.
    pub open spec fn naming_folder(dir: PathView) -> DialogView {
        DialogView {
            path: dir,
            buffer: Seq::empty(),
            ext: Seq::empty(),
            show_ext: false,
            new_folder: true,
        }
    }

    /// The extension is kept apart from the field.
    pub open spec fn has_ext(self) -> bool {
        self.ext.len() > 0 && !self.new_folder
    }

    /// The extension comes into the field, or leaves it where it still stands at its end.
    pub open spec fn with_extension_shown(self, show: bool) -> DialogView {
        if show == self.show_ext {
            self
        } else if show {
            DialogView { show_ext: true, buffer: self.buffer + self.ext, ..self }
        } else if self.ext.len() > 0 && ends_with(self.buffer, self.ext) {
            DialogView {
                show_ext: false,
                buffer: self.buffer.take(self.buffer.len() - self.ext.len()),
                ..self
            }
        } else {
            DialogView { show_ext: false, ..self }
        }
    }

    /// The name that stands in the dialog, with the extension where that is kept apart.
    pub open spec fn new_name(self) -> Seq<char> {
        if self.show_ext || !self.has_ext() {
            trimmed(self.buffer)
        } else {
            trimmed(self.buffer) + self.ext
        }
    }

    /// What is asked for: nothing where the field holds nothing but white space, and nothing of
    /// what lies in no folder. An entry is renamed within its own folder.
    pub open spec fn confirmed(self) -> Option<NamingView> {
        if trimmed(self.buffer).len() == 0 {
            None
        } else if self.new_folder {
            Some(
                NamingView::CreateFolder {
                    path: self.path.join_text(self.new_name()),
                    name: self.new_name(),
                },
            )
        } else {
            match self.path.parent() {
                Some(p) => Some(
                    NamingView::Rename {
                        old_path: self.path,
                        new_path: p.join_text(self.new_name()),
                    },
                ),
                None => None,
            }
        }
    }
}

impl NameDialog {
    /// The dialog that renames the entry at `path`.
    pub fn rename(path: &FsPath) -> (r: NameDialog)
        ensures
            r@ == DialogView::renaming(path@),
    {
        let name = name_or_empty(path);
        let ext = match extension(name.as_str()) {
            Some(e) => joined(".", e.as_str()),
            None => String::new(),
        };
        proof {
            reveal_strlit(".");
        }
        assert(ext@ =~= dotted_extension(name@));
        NameDialog {
            path: path.copy(),
            buffer: file_stem(name.as_str()),
            ext,
            show_ext: false,
            new_folder: false,
        }
    }

    /// The dialog that asks for the name of a new folder in `dir`.
    pub fn new_folder(dir: &FsPath) -> (r: NameDialog)
        ensures
            r@ == DialogView::naming_folder(dir@),
    {
        let r = NameDialog {
            path: dir.copy(),
            buffer: String::new(),
            ext: String::new(),
            show_ext: false,
            new_folder: true,
        };
        assert(r@ =~= DialogView::naming_folder(dir@));
        r
    }

    /// The name of the entry, for display.
    pub fn entry_name(&self) -> (r: String)
        ensures
            r@ == shown_name(self@.path),
    {
        name_or_empty(&self.path)
    }

    /// Whether the extension is kept apart from the field.
    pub fn has_ext(&self) -> (r: bool)
        ensures
            r == self@.has_ext(),
    {
        self.ext.unicode_len() > 0 && !self.new_folder
    }

    /// Shows the extension in the field, or hides it.
    pub fn show_extension(&mut self, show: bool)
        ensures
            final(self)@ == old(self)@.with_extension_shown(show),
    {
        if show == self.show_ext {
            return;
        }
        self.show_ext = show;
        if show {
            self.buffer = joined(self.buffer.as_str(), self.ext.as_str());
        } else if self.ext.unicode_len() > 0 && has_suffix(
            self.buffer.as_str(),
            self.ext.as_str(),
        ) {
            let v = chars_of(self.buffer.as_str());
            let n: usize = v.len() - self.ext.unicode_len();
            let ghost whole = self.buffer@;
            self.buffer = text_between(&v, 0, n);
            assert(self.buffer@ =~= whole.take(n as int));
        }
    }

    /// What is asked for once the name is confirmed.
    pub fn confirm(&self) -> (r: Option<Naming>)
        ensures
            match r {
                Some(n) => self@.confirmed() == Some(n@),
                None => self@.confirmed() is None,
            },
    {
        let stem = trim(self.buffer.as_str());
        if stem.unicode_len() == 0 {
            return None;
        }
        let name = if self.show_ext || !self.has_ext() {
            stem
        } else {
            joined(stem.as_str(), self.ext.as_str())
        };
        if self.new_folder {
            let path = self.path.join_text(name.as_str());
            return Some(Naming::CreateFolder { path, name });
        }
        match self.path.parent() {
            Some(p) => {
                let new_path = p.join_text(name.as_str());
                Some(Naming::Rename { old_path: self.path.copy(), new_path })
            },
            None => None,
        }
    }
}

/// The name of a new file, from what stands in the field; none where that is nothing but white
/// space.
pub fn new_item_name(buffer: &str) -> (r: Option<String>)
    ensures
        match r {
            Some(n) => n@ == trimmed(buffer@) && n@.len() > 0,
            None => trimmed(buffer@).len() == 0,
        },
{
    let n = trim(buffer);
    if n.unicode_len() == 0 {
        None
    } else {
        Some(n)
    }
}

/// The row that the rename key acts on: the only selected one, where it is in the listing.
pub fn row_to_rename(selection: &Selection, rows: &Vec<FileEntry>) -> (r: Option<usize>)
    requires
        selection.wf(),
    ensures
        match r {
            Some(i) => {
                &&& i < rows@.len()
                &&& selection@.names == set![rows@[i as int].name@]
                &&& i == row_of(entry_views(rows@), rows@[i as int].name@)
            },
            None => forall|i: int|
                0 <= i < rows@.len() ==> selection@.names != set![(#[trigger] rows@[i]).name@],
        },
{
    if selection.names.len() != 1 {
        assert forall|i: int| 0 <= i < rows@.len() implies selection@.names
            != set![(#[trigger] rows@[i]).name@] by {
            if selection@.names == set![rows@[i].name@] {
                assert(Set::<Seq<char>>::empty().insert(rows@[i].name@).len() == 1);
            }
        }
        return None;
    }
    let name = selection.names.name_at(0);
    let i: usize = find_row(rows, name.as_str());
    proof {
        selection.names.order_lists_names();
        let order = selection.names.order();
        assert(order =~= seq![name@]);
        assert(selection@.names =~= set![name@]) by {
            assert forall|n: Seq<char>| #[trigger] selection@.names.contains(n) <==> n == name@ by {
                assert(order.to_set().contains(n) <==> order.contains(n));
                assert(order[0] == name@);
            }
        }
        crate::selection::row_of_holds(entry_views(rows@), name@);
        assert(i < rows@.len() ==> entry_views(rows@)[i as int].name == name@);
    }
    if i < rows.len() {
        Some(i)
    } else {
        assert forall|k: int| 0 <= k < rows@.len() implies selection@.names
            != set![(#[trigger] rows@[k]).name@] by {
            assert(entry_views(rows@)[k].name != name@);
            assert(selection@.names.contains(name@));
        }
        None
    }
}

/// Showing the extension and hiding it again leaves the field as it was.
pub proof fn showing_and_hiding_changes_nothing(d: DialogView)
    requires
        !d.show_ext,
    ensures
        d.with_extension_shown(true).with_extension_shown(false) == d,
{
    let shown = d.with_extension_shown(true);
    assert(shown.buffer.subrange(d.buffer.len() as int, shown.buffer.len() as int) =~= d.ext);
    assert(shown.buffer.take(d.buffer.len() as int) =~= d.buffer);
    if d.ext.len() == 0 {
        assert(shown.buffer =~= d.buffer);
    }
}

/// Confirming without a change keeps the name, with the extension in the field or beside it,
/// unless white space at an end of the field is cut off.
pub proof fn an_unchanged_name_is_kept(path: PathView)
    requires
        stem_of(shown_name(path)).len() > 0,
    ensures
        trimmed(stem_of(shown_name(path))) == stem_of(shown_name(path)) ==> DialogView::renaming(
            path,
        ).new_name() == shown_name(path),
        trimmed(shown_name(path)) == shown_name(path) ==> DialogView::renaming(
            path,
        ).with_extension_shown(true).new_name() == shown_name(path),
{
    let name = shown_name(path);
    name_splits(name);
    assert(stem_of(name) + dotted_extension(name) =~= name);
}

/// An entry is renamed within its own folder, whatever folder is shown: the old path is the one
/// that the dialog was opened for, and the new one is the entry of the new name beside it.
pub proof fn a_rename_stays_in_its_folder(d: DialogView)
    requires
        !d.new_folder,
        is_one_name(d.new_name()),
        trimmed(d.buffer).len() > 0,
    ensures
        match d.path.parent() {
            Some(p) => d.confirmed() == Some(
                NamingView::Rename { old_path: d.path, new_path: p.join(d.new_name()) },
            ),
            None => d.confirmed() is None,
        },
{
}

/// The dialog that renames an entry shows what stands before the last dot of its name, and keeps
/// the rest apart; a name without an extension is shown whole.
pub proof fn the_field_holds_the_name_before_the_dot(dir: PathView, stem: Seq<char>, ext: Seq<char>)
    requires
        stem.len() > 0,
        forall|i: int| 0 <= i < ext.len() ==> #[trigger] ext[i] != '.',
        ext.len() > 0,
    ensures
        DialogView::renaming(dir.join(stem + seq!['.'] + ext)).buffer == stem,
        DialogView::renaming(dir.join(stem + seq!['.'] + ext)).ext == seq!['.'] + ext,
        DialogView::renaming(dir.join(ext)).buffer == ext,
        DialogView::renaming(dir.join(ext)).ext.len() == 0,
        DialogView::renaming(dir.join(ext)).path == dir.join(ext),
{
    let name = stem + seq!['.'] + ext;
    crate::paths::the_last_dot_splits_a_name(stem, ext);
    crate::paths::an_entry_has_the_names_of_its_folder(dir, name);
    crate::paths::an_entry_has_the_names_of_its_folder(dir, ext);
    assert(ext != seq!['.'] && ext != seq!['.', '.']) by {
        if ext == seq!['.'] || ext == seq!['.', '.'] {
            assert(ext[0] == '.');
        }
    }
    assert(name != seq!['.'] && name != seq!['.', '.']) by {
        if name == seq!['.'] {
            assert(name.len() == 1);
        }
        if name == seq!['.', '.'] {
            assert(name.last() == ext.last());
            assert(ext[ext.len() - 1] != '.');
        }
    }
}

/// A new name that is typed keeps the extension that stands beside the field, and is taken as it is
/// where the extension stands in the field; white space around it is cut off. The entry stays in
/// its folder, and is found by its old path.
pub proof fn the_extension_is_kept_with_the_name(
    dir: PathView,
    old_name: Seq<char>,
    typed: Seq<char>,
    stem: Seq<char>,
    ext: Seq<char>,
    shown: bool,
)
    requires
        is_one_name(stem),
        is_one_name(stem + ext),
        trimmed(typed) == stem,
    ensures
        ({
            let d = DialogView {
                path: dir.join(old_name),
                buffer: typed,
                ext,
                show_ext: shown,
                new_folder: false,
            };
            let name = if shown {
                stem
            } else {
                stem + ext
            };
            d.confirmed() matches Some(NamingView::Rename { old_path, new_path }) && old_path
                == dir.join(old_name) && new_path.names == dir.names.push(name)
                && new_path.prefix == dir.prefix && new_path.rooted == dir.rooted
        }),
{
    let d = DialogView {
        path: dir.join(old_name),
        buffer: typed,
        ext,
        show_ext: shown,
        new_folder: false,
    };
    crate::paths::an_entry_has_the_names_of_its_folder(dir, old_name);
    assert(stem + Seq::<char>::empty() =~= stem);
    if ext.len() == 0 {
        assert(stem + ext =~= stem);
    }
    a_rename_stays_in_its_folder(d);
    let p = d.path.parent()->0;
    crate::paths::an_entry_has_the_names_of_its_folder(p, d.new_name());
}

/// A new folder is made in the folder that is shown, under the name that was typed, but for white
/// space around it; nothing is made or renamed without a name.
pub proof fn a_new_folder_lies_in_the_shown_one(dir: PathView, typed: Seq<char>, name: Seq<char>)
    requires
        is_one_name(name),
        trimmed(typed) == name,
    ensures
        (DialogView { buffer: typed, ..DialogView::naming_folder(dir) }).confirmed() matches Some(
            NamingView::CreateFolder { path, name: given },
        ) && given == name && path.names == dir.names.push(name) && path.prefix == dir.prefix
            && path.rooted == dir.rooted,
        DialogView::naming_folder(dir).confirmed() is None,
{
    crate::paths::an_entry_has_the_names_of_its_folder(dir, name);
    crate::text::trimming_takes_white_space_alone(DialogView::naming_folder(dir).buffer);
    assert(trimmed(Seq::<char>::empty()).len() == 0);
}

/// Hiding the extension takes it from the end of the field where it stands there, and leaves the
/// field alone where it was changed; showing it puts it there, and doing either twice is doing it
/// once.
pub proof fn the_extension_leaves_the_field_as_it_came(d: DialogView, stem: Seq<char>)
    requires
        d.show_ext,
        d.ext.len() > 0,
    ensures
        (DialogView { buffer: stem + d.ext, ..d }).with_extension_shown(false) == (DialogView {
            buffer: stem,
            show_ext: false,
            ..d
        }),
        (d.buffer.len() < d.ext.len() || d.buffer.skip(d.buffer.len() - d.ext.len()) != d.ext)
            ==> d.with_extension_shown(false) == (DialogView { show_ext: false, ..d }),
        d.with_extension_shown(true) == d,
        (DialogView { show_ext: false, ..d }).with_extension_shown(true) == (DialogView {
            buffer: d.buffer + d.ext,
            ..d
        }),
        (DialogView { show_ext: false, ..d }).with_extension_shown(false) == (DialogView {
            show_ext: false,
            ..d
        }),
{
    crate::text::a_part_is_found(stem, d.ext, Seq::empty());
    let e = DialogView { buffer: stem + d.ext, ..d };
    assert((stem + d.ext).take(stem.len() as int) =~= stem);
    if ends_with(d.buffer, d.ext) {
        assert(d.buffer.skip(d.buffer.len() - d.ext.len()) =~= d.buffer.subrange(
            d.buffer.len() - d.ext.len(),
            d.buffer.len() as int,
        ));
    }
}

} // verus!
