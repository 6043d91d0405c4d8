//! Favorite folders.
use crate::paths::{is_listed, path_views, places, FsPath, PathView};
use crate::sorting::{is_sorted_order, sorted_texts, text_keys};
use crate::text::{lowercase, texts, to_lower};
use crate::tree::in_order;
use vstd::prelude::*;

verus! {

/// The favorite folders.
pub struct Favorites {
    pub paths: Vec<FsPath>,
}

/// The name that a folder goes by: its last name, or all of it where it has none.
pub open spec fn display_name(p: PathView) -> Seq<char> {
    match p.file_name() {
        Some(n) => n,
        None => p.written(),
    }
}

/// The name that a folder goes by.
pub fn name_to_show(p: &FsPath) -> (r: String)
    ensures
        r@ == display_name(p@),
{
    match p.file_name() {
        Some(n) => n,
        None => p.to_text(),
    }
}

/// What favorites are sorted by: the names that they go by, in small letters.
pub open spec fn sort_names(paths: Seq<PathView>) -> Seq<Seq<char>> {
    paths.map_values(|p: PathView| lowercase(display_name(p)))
}

/// Whether `after` holds the folders of `before`, sorted by the names that they go by in small
/// letters; folders that go by one name stay as they are.
pub open spec fn is_arranged(before: Seq<PathView>, after: Seq<PathView>) -> bool {
    exists|order: Seq<usize>|
        is_sorted_order(text_keys(sort_names(before)), true, order) && after == #[trigger] in_order(
            before,
            order,
        )
}

/// The folders of `paths` in order.
fn arrange(paths: &Vec<FsPath>) -> (r: Vec<FsPath>)
    ensures
        is_arranged(path_views(paths@), path_views(r@)),
{
    let ghost all = path_views(paths@);
    let mut names: Vec<String> = Vec::new();
    for i in 0..paths.len()
        invariant
            all == path_views(paths@),
            texts(names@) == sort_names(all).take(i as int),
    {
        let ghost before = texts(names@);
        names.push(to_lower(name_to_show(&paths[i]).as_str()));
        assert(texts(names@) =~= before.push(sort_names(all)[i as int]));
        assert(texts(names@) =~= sort_names(all).take(i + 1));
    }
    assert(sort_names(all).take(all.len() as int) =~= sort_names(all));
    let order = sorted_texts(&names);
    let mut r: Vec<FsPath> = Vec::new();
    for i in 0..order.len()
        invariant
            all == path_views(paths@),
            is_sorted_order(text_keys(sort_names(all)), true, order@),
            path_views(r@) == in_order(all, order@).take(i as int),
    {
        let ghost before = path_views(r@);
        r.push(paths[order[i]].copy());
        assert(path_views(r@) =~= before.push(in_order(all, order@)[i as int]));
        assert(path_views(r@) =~= in_order(all, order@).take(i + 1));
    }
    assert(in_order(all, order@).take(order@.len() as int) =~= in_order(all, order@));
    r
}

impl Favorites {
    /// The favorites that were stored, in order.
    pub fn load(stored: &Vec<FsPath>) -> (r: Favorites)
        ensures
            is_arranged(path_views(stored@), path_views(r.paths@)),
    {
        Favorites { paths: arrange(stored) }
    }

    /// Puts `p` among the favorites where it is not one of them, and says whether it was put
    /// there.
    pub fn insert(&mut self, p: &FsPath) -> (r: bool)
        ensures
            r == !places(path_views(old(self).paths@)).contains(p@.place()),
            r ==> is_arranged(
                path_views(old(self).paths@).push(p@),
                path_views(final(self).paths@),
            ),
            !r ==> final(self).paths == old(self).paths,
    {
        if is_listed(p, &self.paths) {
            return false;
        }
        let ghost before = path_views(self.paths@);
        self.paths.push(p.copy());
        assert(path_views(self.paths@) =~= before.push(p@));
        self.paths = arrange(&self.paths);
        true
    }

    /// Takes the favorite at position `i` away.
    pub fn remove(&mut self, i: usize)
        requires
            i < old(self).paths@.len(),
        ensures
            path_views(final(self).paths@) == path_views(old(self).paths@).remove(i as int),
    {
        self.paths.remove(i);
        assert(path_views(self.paths@) =~= path_views(old(self).paths@).remove(i as int));
    }

    /// The favorites as they are written down.
    pub fn to_texts(&self) -> (r: Vec<String>)
        ensures
            texts(r@) == path_views(self.paths@).map_values(|p: PathView| p.written()),
    {
        let mut r: Vec<String> = Vec::new();
        let ghost all = path_views(self.paths@).map_values(|p: PathView| p.written());
        for i in 0..self.paths.len()
            invariant
                all == path_views(self.paths@).map_values(|p: PathView| p.written()),
                texts(r@) == all.take(i as int),
        {
            let ghost before = texts(r@);
            r.push(self.paths[i].to_text());
            assert(texts(r@) =~= before.push(all[i as int]));
            assert(texts(r@) =~= all.take(i + 1));
        }
        assert(all.take(all.len() as int) =~= all);
        r
    }
}

/// Sorting favorites neither adds nor loses any.
pub proof fn arranging_keeps_favorites(before: Seq<PathView>, after: Seq<PathView>, p: PathView)
    requires
        is_arranged(before, after),
        before.len() <= usize::MAX,
    ensures
        after.len() == before.len(),
        after.contains(p) <==> before.contains(p),
{
    let order = choose|order: Seq<usize>|
        is_sorted_order(text_keys(sort_names(before)), true, order) && after == #[trigger] in_order(
            before,
            order,
        );
    assert(text_keys(sort_names(before)).len() == before.len());
    if after.contains(p) {
        let k = after.index_of(p);
        assert(order[k] < before.len());
        assert(before[order[k] as int] == p);
    }
    if before.contains(p) {
        let k = before.index_of(p);
        assert(order.contains(k as usize));
        let j = order.index_of(k as usize);
        assert(after[j] == p);
    }
}

/// A list has one order: what is shown depends on nothing but the favorites and the order in
/// which they came.
pub proof fn the_arrangement_is_unique(before: Seq<PathView>, a: Seq<PathView>, b: Seq<PathView>)
    requires
        is_arranged(before, a),
        is_arranged(before, b),
    ensures
        a == b,
{
    let keys = text_keys(sort_names(before));
    let s = choose|order: Seq<usize>|
        is_sorted_order(keys, true, order) && a == #[trigger] in_order(before, order);
    let t = choose|order: Seq<usize>|
        is_sorted_order(keys, true, order) && b == #[trigger] in_order(before, order);
    crate::sorting::sorted_order_is_unique(keys, true, s, t);
}

/// Favorites come in the order of the names that they go by, in small letters: of two that agree
/// up to the place `k`, the first ends there or goes on with no later character.
pub proof fn favorites_come_in_order(
    before: Seq<PathView>,
    after: Seq<PathView>,
    i: int,
    j: int,
    k: int,
)
    requires
        is_arranged(before, after),
        0 <= i < j < after.len(),
        0 <= k <= lowercase(display_name(after[i])).len(),
        k <= lowercase(display_name(after[j])).len(),
        lowercase(display_name(after[i])).take(k) == lowercase(display_name(after[j])).take(k),
    ensures
        ({
            let a = lowercase(display_name(after[i]));
            let b = lowercase(display_name(after[j]));
            k == a.len() || (k < b.len() && a[k] <= b[k])
        }),
{
    let names = sort_names(before);
    let order = choose|order: Seq<usize>|
        is_sorted_order(text_keys(names), true, order) && after == #[trigger] in_order(
            before,
            order,
        );
    assert(names[order[i] as int] == lowercase(display_name(after[i])));
    assert(names[order[j] as int] == lowercase(display_name(after[j])));
    crate::sorting::sorted_texts_do_not_fall(names, order, i, j, k);
}

/// A folder goes by its last name, and a root by the whole of its path.
pub proof fn a_folder_goes_by_its_name(dir: PathView, name: Seq<char>)
    ensures
        name != seq!['.'] && name != seq!['.', '.'] ==> display_name(dir.join(name)) == name,
        dir.names.len() == 0 ==> display_name(dir) == dir.written(),
{
    crate::paths::an_entry_has_the_names_of_its_folder(dir, name);
}

} // verus!
