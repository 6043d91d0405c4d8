//! The directory tree of the left panel: which folders are open, which
//! children are known, and how a folder looks and answers a click.
use crate::path_keys::{strip_separators, tree_dir_key_eq, tree_key, without_separators};
use crate::paths::{copy_paths, is_listed, path_views, places, pushing_adds_one, FsPath, PathMap};
use crate::paths::{PathView, PlaceView};
use crate::sorting::{is_sorted_order, sorted_texts, text_keys};
use crate::text::{lowercase, texts, to_lower};
use crate::copy_job::{name_or_empty, shown_name};
use crate::types::Rgb;
use vstd::prelude::*;

verus! {

// ---------------------------------------------------------------------------
// Children of a folder
// ---------------------------------------------------------------------------

/// The folders among the entries of a directory.
pub open spec fn folders_of(entries: Seq<(FsPath, bool)>) -> Seq<PathView>
    decreases entries.len(),
{
    if entries.len() == 0 {
        Seq::empty()
    } else if entries.last().1 {
        folders_of(entries.drop_last()).push(entries.last().0@)
    } else {
        folders_of(entries.drop_last())
    }
}

/// The names of paths in small letters.
pub open spec fn lower_names(paths: Seq<PathView>) -> Seq<Seq<char>> {
    Seq::new(paths.len(), |i: int| lowercase(shown_name(paths[i])))
}

/// `list` in the given order.
pub open spec fn in_order(list: Seq<PathView>, order: Seq<usize>) -> Seq<PathView> {
    Seq::new(order.len(), |i: int| list[order[i] as int])
}

/// The folders among the entries of a directory, sorted by their names in
/// small letters; folders with equal names stay as they are.
pub fn read_dir_children(entries: &Vec<(FsPath, bool)>) -> (r: Vec<FsPath>)
    ensures
        exists|order: Seq<usize>|
            is_sorted_order(text_keys(lower_names(folders_of(entries@))), true, order)
                && path_views(r@) == #[trigger] in_order(folders_of(entries@), order),
{
    let mut folders: Vec<FsPath> = Vec::new();
    assert(path_views(folders@) =~= folders_of(entries@.take(0)));
    for i in 0..entries.len()
        invariant
            path_views(folders@) == folders_of(entries@.take(i as int)),
    {
        assert(entries@.take(i + 1).drop_last() =~= entries@.take(i as int));
        if entries[i].1 {
            let ghost before = path_views(folders@);
            folders.push(entries[i].0.copy());
            assert(path_views(folders@) =~= before.push(entries@[i as int].0@));
        }
    }
    assert(entries@.take(entries@.len() as int) =~= entries@);
    let ghost all = folders_of(entries@);
    let mut names: Vec<String> = Vec::new();
    for i in 0..folders.len()
        invariant
            all == path_views(folders@),
            texts(names@) == lower_names(all).take(i as int),
    {
        let ghost before = texts(names@);
        let name = name_or_empty(&folders[i]);
        names.push(to_lower(name.as_str()));
        assert(texts(names@) =~= before.push(lower_names(all)[i as int]));
        assert(texts(names@) =~= lower_names(all).take(i + 1));
    }
    assert(lower_names(all).take(folders@.len() as int) =~= lower_names(all));
    let order = sorted_texts(&names);
    let mut r: Vec<FsPath> = Vec::new();
    for i in 0..order.len()
        invariant
            all == path_views(folders@),
            is_sorted_order(text_keys(lower_names(all)), true, order@),
            path_views(r@) == in_order(all, order@).take(i as int),
    {
        let ghost before = path_views(r@);
        r.push(folders[order[i]].copy());
        assert(path_views(r@) =~= before.push(in_order(all, order@)[i as int]));
        assert(path_views(r@) =~= in_order(all, order@).take(i + 1));
    }
    assert(in_order(all, order@).take(order@.len() as int) =~= in_order(all, order@));
    r
}

// ---------------------------------------------------------------------------
// Open folders and known children
// ---------------------------------------------------------------------------

/// The open folders of the tree, and the children that are known.
pub struct TreeState {
    pub children: PathMap<Vec<FsPath>>,
    pub expanded: PathMap<()>,
}

/// The children that are known, as views.
pub open spec fn child_views(m: Map<PlaceView, Vec<FsPath>>) -> Map<PlaceView, Seq<PathView>> {
    m.map_values(|v: Vec<FsPath>| path_views(v@))
}

/// The path itself and the folders above it, the topmost first.
pub open spec fn ancestors(p: PathView) -> Seq<PathView> {
    Seq::new(
        p.names.len() + 1,
        |i: int|
            if i < p.names.len() {
                p.above(i as nat)
            } else {
                p
            },
    )
}

/// Those of `list` of which `known` does not hold the children.
pub open spec fn unknown_among(list: Seq<PathView>, known: Set<PlaceView>) -> Seq<PathView>
    decreases list.len(),
{
    if list.len() == 0 {
        Seq::empty()
    } else if known.contains(list.last().place()) {
        unknown_among(list.drop_last(), known)
    } else {
        unknown_among(list.drop_last(), known).push(list.last())
    }
}

/// Whether `p` is one of `gone` or lies below one of them.
pub open spec fn is_stale(p: PlaceView, gone: Seq<PathView>) -> bool {
    exists|i: int| 0 <= i < gone.len() && p.is_within((#[trigger] gone[i]).place())
}

/// Whether `q` is the parent of `g`.
pub open spec fn is_parent_of(q: PlaceView, g: PathView) -> bool {
    g.parent() matches Some(p) && p.place() == q
}

/// Whether `p` is the parent of one of `gone` and not itself one of them.
pub open spec fn is_bereft(p: PlaceView, gone: Seq<PathView>) -> bool {
    !places(gone).contains(p) && exists|i: int|
        0 <= i < gone.len() && is_parent_of(p, #[trigger] gone[i])
}

/// Whether `p` is the parent of one of `gone`, as it is written there.
pub open spec fn is_written_parent(p: PathView, gone: Seq<PathView>) -> bool {
    exists|k: int| 0 <= k < gone.len() && (#[trigger] gone[k]).parent() == Some(p)
}

/// Whether a key that is held leads to the place `k`, and is a spelling of `dir`.
pub open spec fn is_spelled_like(held: Set<PathView>, k: PlaceView, dir: PathView) -> bool {
    exists|h: PathView| #[trigger]
        held.contains(h) && h.place() == k && tree_key(h.written()) == tree_key(dir.written())
}

/// The children of `dir` under every spelling of it that is known, and under
/// its own.
pub open spec fn refreshed_children(
    m: Map<PlaceView, Seq<PathView>>,
    held: Set<PathView>,
    dir: PathView,
    updated: Seq<PathView>,
) -> Map<PlaceView, Seq<PathView>> {
    let fresh = m.map_entries(
        |k: PlaceView, v: Seq<PathView>|
            if is_spelled_like(held, k, dir) {
                updated
            } else {
                v
            },
    );
    fresh.insert(dir.place(), updated)
}

impl TreeState {
    /// The two maps are sound.
    pub open spec fn wf(&self) -> bool {
        self.children.wf() && self.expanded.wf()
    }

    /// A tree with no folder open.
    pub fn new() -> (r: TreeState)
        ensures
            r.wf(),
            r.children@ == Map::<PlaceView, Vec<FsPath>>::empty(),
            r.children.held() == Set::<PathView>::empty(),
            r.expanded@ == Map::<PlaceView, ()>::empty(),
    {
        let r = TreeState { children: PathMap::new(), expanded: PathMap::new() };
        assert(r.children.held() =~= Set::empty());
        r
    }

    /// Closes every folder but those on the way to `path`, and says of which
    /// of them the children are to be read.
    pub fn expand_tree_to(&mut self, path: &FsPath) -> (r: Vec<FsPath>)
        requires
            old(self).wf(),
        ensures
            final(self).wf(),
            final(self).children == old(self).children,
            final(self).expanded@.dom() == places(ancestors(path@)).to_set(),
            path_views(r@) == unknown_among(ancestors(path@), old(self).children@.dom()),
    {
        let ghost all = ancestors(path@);
        let ghost way = places(all);
        let mut expanded: PathMap<()> = PathMap::new();
        let mut r: Vec<FsPath> = Vec::new();
        let n: usize = path.names.len();
        let mut i: usize = 0;
        assert(expanded@.dom() =~= way.take(0).to_set());
        assert(path_views(r@) =~= unknown_among(all.take(0), self.children@.dom()));
        loop
            invariant_except_break
                i <= n,
                n == path@.names.len(),
                all == ancestors(path@),
                way == places(all),
                self.wf(),
                self.children == old(self).children,
                expanded.wf(),
                expanded@.dom() == way.take(i as int).to_set(),
                path_views(r@) == unknown_among(all.take(i as int), self.children@.dom()),
            ensures
                expanded.wf(),
                self.wf(),
                self.children == old(self).children,
                expanded@.dom() == way.to_set(),
                path_views(r@) == unknown_among(all, self.children@.dom()),
            decreases n - i,
        {
            let p = if i < n {
                path.above(i)
            } else {
                path.copy()
            };
            assert(p@ == all[i as int]);
            assert(way[i as int] == p@.place());
            assert(all.take(i + 1).drop_last() =~= all.take(i as int));
            assert(all.take(i + 1).last() == p@);
            if !self.children.contains(&p) {
                let ghost before = path_views(r@);
                r.push(p.copy());
                assert(path_views(r@) =~= before.push(p@));
            }
            expanded.insert(&p, ());
            assert(way.take(i + 1) =~= way.take(i as int).push(p@.place()));
            proof {
                pushing_adds_one(way.take(i as int), p@.place());
            }
            assert(expanded@.dom() =~= way.take(i + 1).to_set());
            if i == n {
                assert(all.take(n + 1) =~= all);
                assert(way.take(n + 1) =~= way);
                break;
            }
            i = i + 1;
        }
        self.expanded = expanded;
        r
    }

    /// Forgets what lies at or below paths that are gone, and says of which
    /// folders the children are to be read again.
    pub fn invalidate_tree_after_delete(&mut self, gone: &Vec<FsPath>) -> (r: Vec<FsPath>)
        requires
            old(self).wf(),
        ensures
            final(self).wf(),
            final(self).children@ == old(self).children@.remove_keys(
                Set::new(|p: PlaceView| is_stale(p, path_views(gone@))),
            ),
            final(self).children.held() == old(self).children.held().filter(
                |k: PathView| !is_stale(k.place(), path_views(gone@)),
            ),
            final(self).expanded@ == old(self).expanded@.remove_keys(
                Set::new(
                    |p: PlaceView|
                        old(self).children@.contains_key(p) && is_stale(p, path_views(gone@)),
                ),
            ),
            places(path_views(r@)).no_duplicates(),
            forall|p: PlaceView|
                places(path_views(r@)).contains(p) <==> #[trigger] is_bereft(
                    p,
                    path_views(gone@),
                ),
            forall|i: int|
                0 <= i < r@.len() ==> is_written_parent((#[trigger] r@[i])@, path_views(gone@)),
    {
        let ghost all = path_views(gone@);
        let ghost known = self.children@;
        let ghost order = self.children.order();
        let ghost keys = places(order);
        proof {
            self.children.order_lists_keys();
        }
        let mut stale: Vec<FsPath> = Vec::new();
        let n: usize = self.children.len();
        assert(places(path_views(stale@)) =~= Seq::empty());
        for i in 0..n
            invariant
                n == order.len(),
                order == self.children.order(),
                keys == places(order),
                self.wf(),
                self.children == old(self).children,
                self.expanded@ == old(self).expanded@,
                all == path_views(gone@),
                forall|p: PlaceView| #[trigger]
                    places(path_views(stale@)).contains(p) <==> keys.take(i as int).contains(p)
                        && is_stale(p, all),
        {
            let key = self.children.key_at(i).copy();
            let ghost before = path_views(stale@);
            let hit = lies_in_any(&key, gone);
            let ghost at = key@.place();
            assert(keys[i as int] == at);
            assert(keys.take(i + 1) =~= keys.take(i as int).push(at));
            let ghost key_view = key@;
            if hit {
                stale.push(key);
                assert(path_views(stale@) =~= before.push(key_view));
                assert(places(path_views(stale@)) =~= places(before).push(at));
            }
            assert forall|p: PlaceView| #[trigger]
                places(path_views(stale@)).contains(p) <==> keys.take(i + 1).contains(p)
                    && is_stale(p, all) by {
                push_contains(keys.take(i as int), at, p);
                push_contains(places(before), at, p);
            }
        }
        assert(keys.take(n as int) =~= keys);
        self.children.remove_all(&stale);
        self.expanded.remove_all(&stale);
        assert(self.children@ =~= known.remove_keys(Set::new(|p: PlaceView| is_stale(p, all))));
        assert(self.children.held() =~= old(self).children.held().filter(
            |k: PathView| !is_stale(k.place(), all),
        )) by {
            assert forall|k: PathView| order.contains(k) implies (places(
                path_views(stale@),
            ).contains(k.place()) <==> is_stale(k.place(), all)) by {
                assert(keys[order.index_of(k)] == k.place());
            }
        }
        assert(places(path_views(stale@)).to_set() =~= Set::new(
            |p: PlaceView| known.contains_key(p) && is_stale(p, all),
        ));
        let mut r: Vec<FsPath> = Vec::new();
        for i in 0..gone.len()
            invariant
                all == path_views(gone@),
                places(path_views(r@)).no_duplicates(),
                forall|p: PlaceView| #[trigger]
                    places(path_views(r@)).contains(p) <==> !places(all).contains(p) && exists|
                        k: int,
                    |
                        0 <= k < i && is_parent_of(p, #[trigger] all[k]),
                forall|j: int| 0 <= j < r@.len() ==> is_written_parent((#[trigger] r@[j])@, all),
        {
            let ghost before = places(path_views(r@));
            let ghost listed = r@;
            assert(all[i as int] == gone@[i as int]@);
            match gone[i].parent() {
                Some(parent) => {
                    let ghost at = parent@.place();
                    if !is_listed(&parent, gone) && !is_listed(&parent, &r) {
                        r.push(parent.copy());
                        assert(places(path_views(r@)) =~= before.push(at));
                    }
                    assert forall|p: PlaceView| #[trigger]
                        places(path_views(r@)).contains(p) <==> !places(all).contains(p) && exists|
                            k: int,
                        |
                            0 <= k < i + 1 && is_parent_of(p, #[trigger] all[k]) by {
                        if places(path_views(r@)) != before {
                            push_contains(before, at, p);
                        }
                        if before.contains(p) {
                            let k = choose|k: int| 0 <= k < i && is_parent_of(p, #[trigger] all[k]);
                            assert(is_parent_of(p, all[k]));
                        }
                        assert(is_parent_of(at, all[i as int]));
                    }
                },
                None => {
                    assert(all[i as int].parent() is None);
                },
            }
            assert forall|j: int| 0 <= j < r@.len() implies is_written_parent(
                (#[trigger] r@[j])@,
                all,
            ) by {
                if j < listed.len() {
                    assert(listed[j] == r@[j]);
                    assert(is_written_parent(listed[j]@, all));
                } else {
                    assert(all[i as int].parent() == Some(r@[j]@));
                }
            }
        }
        assert forall|p: PlaceView|
            places(path_views(r@)).contains(p) <==> #[trigger] is_bereft(p, all) by {
        }
        r
    }

    /// Notes the children of `dir` under every spelling of it that is known, and under its own.
    pub fn refresh_tree_children_for_dir(&mut self, dir: &FsPath, updated: &Vec<FsPath>)
        requires
            old(self).wf(),
        ensures
            final(self).wf(),
            final(self).expanded@ == old(self).expanded@,
            child_views(final(self).children@) == refreshed_children(
                child_views(old(self).children@),
                old(self).children.held(),
                dir@,
                path_views(updated@),
            ),
            final(self).children.held() == if old(self).children@.contains_key(dir@.place()) {
                old(self).children.held()
            } else {
                old(self).children.held().insert(dir@)
            },
    {
        let ghost known = self.children@;
        let ghost views = child_views(known);
        let ghost fresh = path_views(updated@);
        let ghost order = self.children.order();
        let ghost keys = places(order);
        let ghost held = self.children.held();
        proof {
            self.children.order_lists_keys();
        }
        let n: usize = self.children.len();
        let text = dir.to_text();
        for i in 0..n
            invariant
                self.wf(),
                self.children.order() == order,
                n == order.len(),
                keys == places(order),
                keys.no_duplicates(),
                forall|p: PlaceView| keys.contains(p) == known.contains_key(p),
                self.expanded@ == old(self).expanded@,
                text@ == dir@.written(),
                fresh == path_views(updated@),
                self.children@.dom() == known.dom(),
                forall|k: int|
                    0 <= k < n ==> path_views(self.children@[#[trigger] keys[k]]@) == if k < i
                        && tree_key(order[k].written()) == tree_key(text@) {
                        fresh
                    } else {
                        path_views(known[keys[k]]@)
                    },
        {
            let key = self.children.key_at(i).copy();
            let key_text = key.to_text();
            assert(keys[i as int] == key@.place());
            assert(keys.contains(keys[i as int]));
            if tree_dir_key_eq(key_text.as_str(), text.as_str()) {
                self.children.insert(&key, copy_paths(updated));
                assert(self.children@.dom() =~= known.dom());
            }
        }
        self.children.insert(dir, copy_paths(updated));
        let ghost after = child_views(self.children@);
        let ghost wanted = refreshed_children(views, held, dir@, fresh);
        proof {
            assert(after.dom() =~= wanted.dom());
            assert forall|p: PlaceView| after.contains_key(p) implies after[p] == wanted[p] by {
                if known.contains_key(p) {
                    assert(keys.contains(p));
                    let k = keys.index_of(p);
                    assert(keys[k] == p);
                    assert(order[k].place() == p);
                    assert(held.contains(order[k]));
                    assert forall|h: PathView| #[trigger] held.contains(h) && h.place()
                        == p implies h == order[k] by {
                        let j = order.index_of(h);
                        assert(order.contains(h));
                        assert(keys[j] == p);
                    }
                }
            }
            assert(after =~= wanted);
        }
    }
}

/// Whether `p` is one of `list` or lies below one of them.
fn lies_in_any(p: &FsPath, list: &Vec<FsPath>) -> (r: bool)
    ensures
        r == is_stale(p@.place(), path_views(list@)),
{
    let ghost all = path_views(list@);
    for i in 0..list.len()
        invariant
            all == path_views(list@),
            forall|k: int| 0 <= k < i ==> !p@.place().is_within((#[trigger] all[k]).place()),
    {
        if p.starts_with(&list[i]) {
            assert(p@.place().is_within(all[i as int].place()));
            return true;
        }
        assert(!p@.place().is_within(all[i as int].place()));
    }
    false
}

/// A list holds what is pushed on it and what it held.
proof fn push_contains(s: Seq<PlaceView>, x: PlaceView, p: PlaceView)
    ensures
        s.push(x).contains(p) <==> s.contains(p) || p == x,
{
    let t = s.push(x);
    if s.contains(p) {
        assert(t[s.index_of(p)] == p);
    }
    assert(t[s.len() as int] == x);
    if t.contains(p) {
        let k = t.index_of(p);
        if k < s.len() {
            assert(s[k] == p);
        }
    }
}

// ---------------------------------------------------------------------------
// One folder of the tree
// ---------------------------------------------------------------------------

/// How a folder of the tree is shown.
pub struct NodeLook {
    pub name: String,
    pub is_expanded: bool,
    pub is_current: bool,
    pub is_ancestor: bool,
    pub is_drop_target: bool,
    pub is_bold: bool,
    pub text: Rgb,
    pub fill: Rgb,
}

/// What a drag over the tree, the highlighted folder and the folder that is
/// shown are.
pub struct TreeContext {
    pub current: FsPath,
    pub dnd_active: bool,
    pub dnd_sources: Vec<FsPath>,
    pub drop_target: Option<FsPath>,
    pub highlight: Option<FsPath>,
}

/// Whether an optional path is `p`.
pub open spec fn is_path(o: Option<FsPath>, p: PathView) -> bool {
    match o {
        Some(q) => q@.is_same(p),
        None => false,
    }
}

/// Whether an optional path is `p`.
fn holds_path(o: &Option<FsPath>, p: &FsPath) -> (r: bool)
    ensures
        r == is_path(*o, p@),
{
    match o {
        Some(q) => q.same(p),
        None => false,
    }
}

/// Whether `p` lies above `q`.
pub open spec fn is_above(p: PathView, q: PathView) -> bool {
    !p.is_same(q) && q.starts_with(p)
}

/// The name that a folder of the tree is shown with: its own, or that of its
/// drive.
pub open spec fn node_name(p: PathView) -> Seq<char> {
    match p.file_name() {
        Some(n) => n,
        None => without_separators(p.written()),
    }
}

/// Whether a folder can be dropped on: something is dragged, and neither the
/// folder that is shown nor the folder itself is it.
pub open spec fn can_drop_on(p: PathView, context: TreeContext) -> bool {
    context.dnd_active && !p.is_same(context.current@) && !places(
        path_views(context.dnd_sources@),
    ).contains(p.place())
}

/// The colors of a folder, text and background: a drop target comes before
/// the highlighted folder, that one before the folder that is shown, and that
/// one before those above it.
pub open spec fn node_colors(p: PathView, context: TreeContext) -> (Rgb, Rgb) {
    let current = p.is_same(context.current@);
    let target = context.dnd_active && is_path(context.drop_target, p) && !current;
    let white = Rgb { r: 255, g: 255, b: 255 };
    let dark = Rgb { r: 20, g: 20, b: 20 };
    let text = if current || target {
        white
    } else {
        dark
    };
    let fill = if target {
        Rgb { r: 80, g: 200, b: 80 }
    } else if is_path(context.highlight, p) {
        Rgb { r: 180, g: 200, b: 255 }
    } else if current {
        Rgb { r: 100, g: 150, b: 255 }
    } else if is_above(p, context.current@) {
        Rgb { r: 255, g: 200, b: 60 }
    } else {
        Rgb { r: 255, g: 245, b: 150 }
    };
    (text, fill)
}

/// How the folder `path` is shown.
pub fn node_look(tree: &TreeState, path: &FsPath, context: &TreeContext) -> (r: NodeLook)
    requires
        tree.wf(),
    ensures
        r.name@ == node_name(path@),
        r.is_expanded == tree.expanded@.contains_key(path@.place()),
        r.is_current == path@.is_same(context.current@),
        r.is_ancestor == is_above(path@, context.current@),
        r.is_drop_target == (context.dnd_active && is_path(context.drop_target, path@)
            && !path@.is_same(context.current@)),
        r.is_bold == (context.current@.starts_with(path@) || is_path(context.highlight, path@)),
        (r.text, r.fill) == node_colors(path@, *context),
{
    let is_current = path.same(&context.current);
    let below = context.current.starts_with(path);
    assert(is_current ==> below) by {
        if is_current {
            assert(path@.names.take(path@.names.len() as int) =~= path@.names);
        }
    }
    let is_ancestor = !is_current && below;
    let highlighted = holds_path(&context.highlight, path);
    let is_drop_target = context.dnd_active && holds_path(&context.drop_target, path)
        && !is_current;
    let name = match path.file_name() {
        Some(n) => n,
        None => strip_separators(path.to_text().as_str()),
    };
    let text = if is_current || is_drop_target {
        Rgb { r: 255, g: 255, b: 255 }
    } else {
        Rgb { r: 20, g: 20, b: 20 }
    };
    let fill = if is_drop_target {
        Rgb { r: 80, g: 200, b: 80 }
    } else if highlighted {
        Rgb { r: 180, g: 200, b: 255 }
    } else if is_current {
        Rgb { r: 100, g: 150, b: 255 }
    } else if is_ancestor {
        Rgb { r: 255, g: 200, b: 60 }
    } else {
        Rgb { r: 255, g: 245, b: 150 }
    };
    NodeLook {
        name,
        is_expanded: tree.expanded.contains(path),
        is_current,
        is_ancestor,
        is_drop_target,
        is_bold: below || highlighted,
        text,
        fill,
    }
}

/// Whether the folder `path` can be dropped on.
pub fn is_valid_drop(path: &FsPath, context: &TreeContext) -> (r: bool)
    ensures
        r == can_drop_on(path@, *context),
{
    context.dnd_active && !path.same(&context.current) && !is_listed(path, &context.dnd_sources)
}

/// What follows a click on a folder.
pub struct NodeClick {
    /// The children of the folder are to be read.
    pub load: bool,
    /// The folder is to be shown.
    pub navigate: bool,
}

impl TreeState {
    /// A click on a folder opens or closes it. The folder is also shown,
    /// unless it is shown already: showing it would open it again.
    pub fn click(&mut self, path: &FsPath, current: &FsPath) -> (r: NodeClick)
        requires
            old(self).wf(),
        ensures
            final(self).wf(),
            final(self).children == old(self).children,
            final(self).expanded@ == if old(self).expanded@.contains_key(path@.place()) {
                old(self).expanded@.remove(path@.place())
            } else {
                old(self).expanded@.insert(path@.place(), ())
            },
            r.load == (!old(self).expanded@.contains_key(path@.place())
                && !old(self).children@.contains_key(path@.place())),
            r.navigate == !path@.is_same(current@),
    {
        let navigate = !path.same(current);
        if self.expanded.contains(path) {
            self.expanded.remove(path);
            NodeClick { load: false, navigate }
        } else {
            self.expanded.insert(path, ());
            NodeClick { load: !self.children.contains(path), navigate }
        }
    }
}

/// Two clicks on a folder leave it open or closed as it was.
pub proof fn clicking_twice_changes_nothing(expanded: Map<PlaceView, ()>, p: PlaceView)
    ensures
        expanded.contains_key(p) ==> expanded.remove(p).insert(p, ()) == expanded,
        !expanded.contains_key(p) ==> expanded.insert(p, ()).remove(p) == expanded,
{
    if expanded.contains_key(p) {
        assert(expanded.remove(p).insert(p, ()) =~= expanded);
    } else {
        assert(expanded.insert(p, ()).remove(p) =~= expanded);
    }
}

/// After the tree was opened down to a path, a folder is open exactly if it
/// is the path or lies above it.
pub proof fn only_the_way_down_is_open(path: PathView, p: PathView)
    ensures
        places(ancestors(path)).to_set().contains(p.place()) <==> path.starts_with(p),
{
    let all = places(ancestors(path));
    if all.contains(p.place()) {
        let i = all.index_of(p.place());
        assert(all[i] == p.place());
        assert(path.names.take(p.names.len() as int) =~= p.names);
    }
    if path.starts_with(p) {
        let i = p.names.len() as int;
        assert(path.names.take(path.names.len() as int) =~= path.names);
        assert(all[i] =~= p.place());
    }
}

/// The children of a folder in the tree are its folders, in the order of their names in small
/// letters: of two that agree up to the place `k`, the first ends there or goes on with no later
/// character.
pub proof fn children_come_in_order(
    folders: Seq<PathView>,
    order: Seq<usize>,
    i: int,
    j: int,
    k: int,
)
    requires
        is_sorted_order(text_keys(lower_names(folders)), true, order),
        0 <= i < j < order.len(),
        0 <= k <= lowercase(shown_name(in_order(folders, order)[i])).len(),
        k <= lowercase(shown_name(in_order(folders, order)[j])).len(),
        lowercase(shown_name(in_order(folders, order)[i])).take(k) == lowercase(
            shown_name(in_order(folders, order)[j]),
        ).take(k),
    ensures
        in_order(folders, order).len() == folders.len(),
        order[i] != order[j],
        ({
            let a = lowercase(shown_name(in_order(folders, order)[i]));
            let b = lowercase(shown_name(in_order(folders, order)[j]));
            k == a.len() || (k < b.len() && a[k] <= b[k])
        }),
{
    let names = lower_names(folders);
    assert(names[order[i] as int] == lowercase(shown_name(in_order(folders, order)[i])));
    assert(names[order[j] as int] == lowercase(shown_name(in_order(folders, order)[j])));
    crate::sorting::sorted_texts_do_not_fall(names, order, i, j, k);
}

/// Of the entries of a directory those are shown in the tree that are folders, and no others.
pub proof fn only_folders_are_in_the_tree(entries: Seq<(FsPath, bool)>, e: (FsPath, bool))
    ensures
        folders_of(entries.push(e)) == if e.1 {
            folders_of(entries).push(e.0@)
        } else {
            folders_of(entries)
        },
        folders_of(Seq::empty()).len() == 0,
{
    assert(entries.push(e).drop_last() =~= entries);
    assert(entries.push(e).last() == e);
}

/// The folders on the way to a path are those that its first names lead to, from the root on.
pub proof fn ancestors_are_the_way_down(p: PathView, i: int)
    requires
        0 <= i <= p.names.len(),
    ensures
        ancestors(p).len() == p.names.len() + 1,
        ancestors(p)[i].names == p.names.take(i),
        ancestors(p)[i].prefix == p.prefix,
        ancestors(p)[i].rooted == p.rooted,
{
    assert(p.names.take(p.names.len() as int) =~= p.names);
}

/// Those folders are to be read whose children are not known, in their order, and no others.
pub proof fn only_unknown_folders_are_read(list: Seq<PathView>, p: PathView, known: Set<PlaceView>)
    ensures
        unknown_among(list.push(p), known) == if known.contains(p.place()) {
            unknown_among(list, known)
        } else {
            unknown_among(list, known).push(p)
        },
        unknown_among(Seq::empty(), known).len() == 0,
{
    assert(list.push(p).drop_last() =~= list);
}

/// What was deleted is forgotten, with everything below it and nothing beside it.
pub proof fn what_lies_below_is_forgotten(
    p: PathView,
    rest: Seq<Seq<char>>,
    gone: Seq<PathView>,
    i: int,
)
    ensures
        0 <= i < gone.len() && p.prefix == gone[i].prefix && p.rooted == gone[i].rooted && p.names
            == gone[i].names + rest ==> is_stale(p.place(), gone),
        (forall|k: int|
            0 <= k < gone.len() ==> (#[trigger] gone[k]).prefix != p.prefix || gone[k].rooted
                != p.rooted || gone[k].names.len() > p.names.len() || p.names.take(
                gone[k].names.len() as int,
            ) != gone[k].names) ==> !is_stale(p.place(), gone),
{
    if 0 <= i < gone.len() && p.prefix == gone[i].prefix && p.rooted == gone[i].rooted && p.names
        == gone[i].names + rest {
        assert(p.names.take(gone[i].names.len() as int) =~= gone[i].names);
        assert(p.place().is_within(gone[i].place()));
    }
}

/// The folder that something was deleted from is read again, unless it was deleted too.
pub proof fn the_folder_above_is_read_again(gone: Seq<PathView>, i: int, p: PathView)
    requires
        0 <= i < gone.len(),
        gone[i].names.len() > 0,
        p.prefix == gone[i].prefix,
        p.rooted == gone[i].rooted,
        p.names == gone[i].names.drop_last(),
        forall|k: int| 0 <= k < gone.len() ==> !(#[trigger] gone[k]).is_same(p),
    ensures
        is_bereft(p.place(), gone),
{
    crate::paths::the_parent_has_all_names_but_the_last(gone[i]);
    assert(is_parent_of(p.place(), gone[i]));
    assert(!places(gone).contains(p.place())) by {
        if places(gone).contains(p.place()) {
            let k = places(gone).index_of(p.place());
            assert(gone[k].is_same(p));
        }
    }
}

/// A folder of the tree is called by its name.
pub proof fn a_node_is_called_by_its_name(dir: PathView, name: Seq<char>)
    requires
        name != seq!['.'],
        name != seq!['.', '.'],
    ensures
        node_name(dir.join(name)) == name,
{
    crate::paths::an_entry_has_the_names_of_its_folder(dir, name);
}

/// What is read anew for a folder is what the tree shows of it, under its own spelling and every
/// other one that is known; the children of other folders stay.
pub proof fn fresh_children_replace_the_old(
    m: Map<PlaceView, Seq<PathView>>,
    held: Set<PathView>,
    dir: PathView,
    other: PathView,
    updated: Seq<PathView>,
)
    ensures
        refreshed_children(m, held, dir, updated)[dir.place()] == updated,
        refreshed_children(m, held, dir, updated).contains_key(dir.place()),
        m.contains_key(other.place()) && held.contains(other) && tree_key(other.written())
            == tree_key(dir.written()) ==> refreshed_children(m, held, dir, updated)[other.place()]
            == updated,
        m.contains_key(other.place()) && !other.is_same(dir) && (forall|h: PathView|
            #[trigger] held.contains(h) && h.is_same(other) ==> tree_key(h.written()) != tree_key(
                dir.written(),
            )) ==> refreshed_children(m, held, dir, updated)[other.place()] == m[other.place()],
        !m.contains_key(other.place()) && !other.is_same(dir) ==> !refreshed_children(
            m,
            held,
            dir,
            updated,
        ).contains_key(other.place()),
{
    if m.contains_key(other.place()) && held.contains(other) && tree_key(other.written())
        == tree_key(dir.written()) {
        assert(is_spelled_like(held, other.place(), dir));
    }
}

/// A folder lies above another where it has some of that one's names from the first on, and not all
/// of them.
pub proof fn a_folder_above_has_fewer_names(p: PathView, q: PathView, rest: Seq<Seq<char>>)
    ensures
        q.prefix == p.prefix && q.rooted == p.rooted && q.names == p.names + rest && rest.len() > 0
            ==> is_above(p, q) && !is_above(q, p),
        !is_above(p, p),
        is_above(p, q) ==> p.names.len() < q.names.len() && q.starts_with(p),
{
    if q.prefix == p.prefix && q.rooted == p.rooted && q.names == p.names + rest {
        assert(q.names.take(p.names.len() as int) =~= p.names);
    }
    if is_above(p, q) && p.names.len() == q.names.len() {
        assert(q.names.take(p.names.len() as int) =~= q.names);
    }
}

/// While something is dragged it can be dropped on every folder but the one that is shown and those
/// that are dragged; otherwise on none.
pub proof fn a_drag_can_go_to_other_folders(p: PathView, context: TreeContext)
    ensures
        !context.dnd_active ==> !can_drop_on(p, context),
        p.is_same(context.current@) ==> !can_drop_on(p, context),
        (exists|i: int|
            0 <= i < context.dnd_sources@.len() && (#[trigger] context.dnd_sources@[i])@.is_same(p))
            ==> !can_drop_on(p, context),
        context.dnd_active && !p.is_same(context.current@) && (forall|i: int|
            0 <= i < context.dnd_sources@.len() ==> !(#[trigger] context.dnd_sources@[i])@.is_same(
                p,
            )) ==> can_drop_on(p, context),
{
    let all = places(path_views(context.dnd_sources@));
    if exists|i: int|
        0 <= i < context.dnd_sources@.len() && (#[trigger] context.dnd_sources@[i])@.is_same(p) {
        let i = choose|i: int|
            0 <= i < context.dnd_sources@.len() && (#[trigger] context.dnd_sources@[i])@.is_same(p);
        assert(all[i] == p.place());
    }
    if all.contains(p.place()) {
        let i = all.index_of(p.place());
        assert(context.dnd_sources@[i]@.is_same(p));
    }
}

/// The folder that is shown, those above it and all others can be told apart by their background,
/// and so can the folder that a drop would go to.
pub proof fn folders_can_be_told_apart(
    shown: PathView,
    above: PathView,
    other: PathView,
    context: TreeContext,
)
    requires
        shown.is_same(context.current@),
        is_above(above, context.current@),
        !is_above(other, context.current@),
        !other.is_same(context.current@),
        context.highlight is None,
        context.drop_target is None,
    ensures
        node_colors(shown, context).1 != node_colors(above, context).1,
        node_colors(shown, context).1 != node_colors(other, context).1,
        node_colors(above, context).1 != node_colors(other, context).1,
        node_colors(shown, context).0 != node_colors(other, context).0,
        node_colors(above, context).0 == node_colors(other, context).0,
{
}

/// A drive is called by its letter and a colon.
pub proof fn a_drive_is_called_by_its_letter(p: PathView, b: u8)
    requires
        p.prefix == crate::paths::PrefixView::Disk(b),
        p.rooted,
        p.names.len() == 0,
        p.spelling is None,
    ensures
        node_name(p) == seq![b as char, ':'],
{
    assert(p.written_names(0) =~= Seq::empty());
    let name = seq![b as char, ':'];
    assert(p.written() =~= name.push('\\'));
    assert(name.push('\\').drop_last() =~= name);
    crate::path_keys::only_separators_are_taken_off(name);
}

} // verus!
