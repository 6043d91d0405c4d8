//! Files that wait to be pasted.
use crate::paths::{copy_paths, path_views, places, FsPath, PathView, PlaceView};
use crate::types::ClipboardMode;
use vstd::prelude::*;

verus! {

/// What was copied or cut here.
pub struct FileClipboard {
    pub files: Vec<FsPath>,
    pub mode: Option<ClipboardMode>,
}

/// The view of a `FileClipboard`.
#[verifier::ext_equal]
pub struct ClipboardView {
    pub files: Seq<PathView>,
    pub mode: Option<ClipboardMode>,
}

impl View for FileClipboard {
    type V = ClipboardView;

    open spec fn view(&self) -> ClipboardView {
        ClipboardView { files: path_views(self.files@), mode: self.mode }
    }
}

/// The files that a paste takes, and whether it moves them.
pub struct Paste {
    pub files: Vec<FsPath>,
    pub is_move: bool,
}

/// The view of a `Paste`.
#[verifier::ext_equal]
pub struct PasteView {
    pub files: Seq<PathView>,
    pub is_move: bool,
}

impl View for Paste {
    type V = PasteView;

    open spec fn view(&self) -> PasteView {
        PasteView { files: path_views(self.files@), is_move: self.is_move }
    }
}

/// Whether two lists hold the same paths, each as often.
pub open spec fn same_files(a: Seq<PathView>, b: Seq<PathView>) -> bool {
    places(a).to_multiset() == places(b).to_multiset()
}

/// What stands in the first part of a list stands in the list as often at least.
proof fn part_counts(s: Seq<PlaceView>, i: int, p: PlaceView)
    requires
        0 <= i <= s.len(),
    ensures
        s.take(i).to_multiset().count(p) <= s.to_multiset().count(p),
{
    assert(s =~= s.take(i) + s.skip(i));
    vstd::seq_lib::lemma_multiset_commutative(s.take(i), s.skip(i));
}

/// Whether two lists hold the same paths, each as often.
pub fn hold_same(a: &Vec<FsPath>, b: &Vec<FsPath>) -> (r: bool)
    ensures
        r == same_files(path_views(a@), path_views(b@)),
{
    broadcast use vstd::seq_lib::group_to_multiset_ensures;

    let ghost av = places(path_views(a@));
    let ghost bv = places(path_views(b@));
    if a.len() != b.len() {
        assert(av.to_multiset().len() == av.len());
        assert(bv.to_multiset().len() == bv.len());
        return false;
    }
    let mut rest = copy_paths(b);
    assert(places(path_views(rest@)).len() == rest@.len());
    assert(bv.len() == b@.len());
    assert(av.take(0) =~= Seq::<PlaceView>::empty());
    assert(places(path_views(rest@)).to_multiset().add(av.take(0).to_multiset()) =~= bv.to_multiset());
    for i in 0..a.len()
        invariant
            av == places(path_views(a@)),
            bv == places(path_views(b@)),
            places(path_views(rest@)).to_multiset().add(av.take(i as int).to_multiset())
                == bv.to_multiset(),
            rest@.len() + i == a@.len(),
    {
        broadcast use vstd::seq_lib::group_to_multiset_ensures;

        let ghost before = places(path_views(rest@));
        let ghost p = a@[i as int]@.place();
        assert(av.take(i + 1) =~= av.take(i as int).push(p));
        let found: Option<usize> = position(&a[i], &rest);
        match found {
            Some(k) => {
                rest.remove(k);
                assert(places(path_views(rest@)) =~= before.remove(k as int));
                assert(before[k as int] == p);
                assert(before.to_multiset().count(p) > 0) by {
                    assert(before.contains(p));
                }
                assert(places(path_views(rest@)).to_multiset().add(av.take(i + 1).to_multiset())
                    =~= bv.to_multiset());
            },
            None => {
                proof {
                    assert(before.to_multiset().count(p) == 0) by {
                        assert(!before.contains(p));
                    }
                    part_counts(av, i + 1, p);
                    assert(bv.to_multiset().count(p) == av.take(i as int).to_multiset().count(p));
                    assert(av.take(i + 1).to_multiset().count(p) == av.take(
                        i as int,
                    ).to_multiset().count(p) + 1);
                }
                return false;
            },
        }
    }
    assert(places(path_views(rest@)) =~= Seq::<PlaceView>::empty());
    assert(av.take(av.len() as int) =~= av);
    assert(av.to_multiset() =~= bv.to_multiset());
    true
}

/// Where `p` stands first in `list`.
fn position(p: &FsPath, list: &Vec<FsPath>) -> (r: Option<usize>)
    ensures
        match r {
            Some(k) => k < list@.len() && places(path_views(list@))[k as int] == p@.place(),
            None => !places(path_views(list@)).contains(p@.place()),
        },
{
    for i in 0..list.len()
        invariant
            forall|k: int| 0 <= k < i ==> places(path_views(list@))[k] != p@.place(),
    {
        if list[i].same(p) {
            return Some(i);
        }
        assert(places(path_views(list@))[i as int] != p@.place());
    }
    None
}

/// A clipboard with nothing on it.
pub open spec fn nothing_kept() -> ClipboardView {
    ClipboardView { files: Seq::empty(), mode: None }
}

impl ClipboardView {
    /// What stands on the clipboard after `files` were copied, or cut. Nothing selected changes
    /// nothing.
    pub open spec fn taken(self, files: Seq<PathView>, cut: bool) -> ClipboardView {
        if files.len() == 0 {
            self
        } else {
            ClipboardView {
                files,
                mode: Some(
                    if cut {
                        ClipboardMode::Cut
                    } else {
                        ClipboardMode::Copy
                    },
                ),
            }
        }
    }

    /// Whether a paste takes what was copied or cut here: there is something, and the system's
    /// clipboard is empty or holds the same files.
    pub open spec fn is_current(self, system: Seq<PathView>) -> bool {
        self.files.len() > 0 && (system.len() == 0 || same_files(system, self.files))
    }

    /// What a paste takes, with the files `system` on the system's clipboard.
    pub open spec fn paste(self, system: Seq<PathView>, system_cut: bool) -> Option<PasteView> {
        if self.is_current(system) {
            Some(PasteView { files: self.files, is_move: self.mode == Some(ClipboardMode::Cut) })
        } else if system.len() > 0 {
            Some(PasteView { files: system, is_move: system_cut })
        } else {
            None
        }
    }

    /// What stands on the clipboard after a paste: nothing after a move, else what was pasted.
    pub open spec fn pasted(self, system: Seq<PathView>, system_cut: bool) -> ClipboardView {
        match self.paste(system, system_cut) {
            Some(p) => if p.is_move {
                nothing_kept()
            } else if self.is_current(system) {
                self
            } else {
                ClipboardView { files: system, mode: Some(ClipboardMode::Copy) }
            },
            None => self,
        }
    }
}

impl FileClipboard {
    /// An empty clipboard.
    pub fn new() -> (r: FileClipboard)
        ensures
            r@ == nothing_kept(),
    {
        let r = FileClipboard { files: Vec::new(), mode: None };
        assert(path_views(r.files@) =~= Seq::empty());
        r
    }

    /// Copies `files`, or cuts them.
    pub fn take(&mut self, files: Vec<FsPath>, cut: bool)
        ensures
            final(self)@ == old(self)@.taken(path_views(files@), cut),
    {
        if files.len() > 0 {
            self.files = files;
            self.mode = Some(
                if cut {
                    ClipboardMode::Cut
                } else {
                    ClipboardMode::Copy
                },
            );
        }
    }

    /// Empties the clipboard.
    pub fn clear(&mut self)
        ensures
            final(self)@ == nothing_kept(),
    {
        *self = FileClipboard::new();
    }

    /// Pastes. The system's clipboard holds the files `system`, for a move where `system_cut`;
    /// what was copied or cut here goes before it only where it is not out of date.
    pub fn paste(&mut self, system: Vec<FsPath>, system_cut: bool) -> (r: Option<Paste>)
        ensures
            final(self)@ == old(self)@.pasted(path_views(system@), system_cut),
            match r {
                Some(p) => old(self)@.paste(path_views(system@), system_cut) == Some(p@),
                None => old(self)@.paste(path_views(system@), system_cut) is None,
            },
    {
        let current = self.files.len() > 0 && (system.len() == 0 || hold_same(
            &system,
            &self.files,
        ));
        if current {
            let files = copy_paths(&self.files);
            let is_move = match self.mode {
                Some(ClipboardMode::Cut) => true,
                _ => false,
            };
            if is_move {
                self.clear();
            }
            Some(Paste { files, is_move })
        } else if system.len() > 0 {
            if system_cut {
                self.clear();
            } else {
                self.files = copy_paths(&system);
                self.mode = Some(ClipboardMode::Copy);
            }
            Some(Paste { files: system, is_move: system_cut })
        } else {
            None
        }
    }
}

/// What was cut is moved once: after the paste the clipboard is empty, and another paste takes
/// nothing while the system's clipboard holds nothing.
pub proof fn a_cut_is_pasted_once(
    c: ClipboardView,
    files: Seq<PathView>,
    system: Seq<PathView>,
    system_cut: bool,
)
    requires
        files.len() > 0,
        system.len() == 0 || same_files(system, files),
    ensures
        c.taken(files, true).paste(system, system_cut) == Some(PasteView { files, is_move: true }),
        c.taken(files, true).pasted(system, system_cut).paste(Seq::empty(), false) is None,
{
}

/// What was copied can be pasted again and again.
pub proof fn a_copy_can_be_pasted_again(
    c: ClipboardView,
    files: Seq<PathView>,
    system: Seq<PathView>,
    system_cut: bool,
)
    requires
        files.len() > 0,
        system.len() == 0 || same_files(system, files),
    ensures
        c.taken(files, false).paste(system, system_cut) == Some(
            PasteView { files, is_move: false },
        ),
        c.taken(files, false).pasted(system, system_cut) == c.taken(files, false),
{
}

/// Files that another program has put on the system's clipboard since go before what was copied
/// or cut here.
pub proof fn newer_files_go_first(
    c: ClipboardView,
    system: Seq<PathView>,
    system_cut: bool,
)
    requires
        system.len() > 0,
        !same_files(system, c.files),
    ensures
        c.paste(system, system_cut) == Some(PasteView { files: system, is_move: system_cut }),
{
}

/// Lists hold the same files whatever their order is.
pub proof fn the_order_of_files_does_not_matter(a: Seq<PathView>, b: Seq<PathView>)
    ensures
        same_files(a + b, b + a),
        same_files(a, a),
{
    assert(places(a + b) =~= places(a) + places(b));
    assert(places(b + a) =~= places(b) + places(a));
    vstd::seq_lib::lemma_multiset_commutative(places(a), places(b));
    vstd::seq_lib::lemma_multiset_commutative(places(b), places(a));
    assert(places(a + b).to_multiset() =~= places(b + a).to_multiset());
}

/// A file that one list holds and the other does not makes them different lists.
pub proof fn a_file_more_makes_a_difference(a: Seq<PathView>, b: Seq<PathView>, i: int)
    requires
        0 <= i < a.len(),
        forall|k: int| 0 <= k < b.len() ==> !(#[trigger] b[k]).is_same(a[i]),
    ensures
        !same_files(a, b),
        !same_files(b, a),
{
    broadcast use vstd::seq_lib::group_to_multiset_ensures;

    let p = a[i].place();
    assert(places(a)[i] == p);
    assert(places(a).contains(p));
    assert(!places(b).contains(p)) by {
        if places(b).contains(p) {
            let k = places(b).index_of(p);
            assert(b[k].is_same(a[i]));
        }
    }
    assert(places(a).to_multiset().count(p) > 0);
    assert(places(b).to_multiset().count(p) == 0);
}

/// Copying and cutting replace what was on the clipboard, and selecting nothing changes nothing;
/// a paste takes all of it, and moves it where it was cut and nowhere else.
pub proof fn what_was_taken_is_pasted(c: ClipboardView, files: Seq<PathView>, cut: bool)
    ensures
        files.len() > 0 ==> c.taken(files, cut).paste(Seq::empty(), false) == Some(
            PasteView { files, is_move: cut },
        ),
        files.len() > 0 ==> c.taken(files, cut).paste(files, !cut) == Some(
            PasteView { files, is_move: cut },
        ),
        c.taken(Seq::empty(), cut) == c,
        nothing_kept().paste(Seq::empty(), cut) is None,
        files.len() > 0 ==> nothing_kept().paste(files, cut) == Some(
            PasteView { files, is_move: cut },
        ),
        files.len() > 0 ==> nothing_kept().pasted(files, true).paste(Seq::empty(), false) is None,
        files.len() > 0 ==> nothing_kept().pasted(files, false).paste(Seq::empty(), false) == Some(
            PasteView { files, is_move: false },
        ),
{
    the_order_of_files_does_not_matter(files, Seq::empty());
}

/// Lists of the same files are of one length: a file that stands twice counts twice.
pub proof fn the_same_files_are_as_many(a: Seq<PathView>, b: Seq<PathView>)
    requires
        same_files(a, b),
    ensures
        a.len() == b.len(),
        same_files(b, a),
{
    broadcast use vstd::seq_lib::group_to_multiset_ensures;

    assert(places(a).to_multiset().len() == places(a).len());
    assert(places(b).to_multiset().len() == places(b).len());
}

} // verus!
