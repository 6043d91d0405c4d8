//! The listing of a folder: its rows, their order, their sizes, and what
//! changes on disk do to them.
use crate::names::NameSet;
use crate::paths::{FsPath, PathView};
use crate::sorting::{is_sorted_order, key_views, sorted_order, text_value, value_of_text, KeyView};
use crate::sorting::SortKey;
use crate::text::{a_part_is_found, what_is_found_is_there};
use crate::text::{begins_with, copy_text, has_part, has_prefix, lowercase, occurs_in, text_eq};
use crate::text::{texts, to_lower};
use crate::types::{entry_views, EntryView, FileEntry, SortColumn};
use vstd::hash_map::StringHashMap;
use vstd::prelude::*;

verus! {

// ---------------------------------------------------------------------------
// Rows
// ---------------------------------------------------------------------------

/// Whether a row leads to the folder above.
pub open spec fn is_parent_row(name: Seq<char>) -> bool {
    begins_with(name, "[..]"@)
}

/// Whether a row leads to the folder above.
pub fn names_parent(name: &str) -> (r: bool)
    ensures
        r == is_parent_row(name@),
{
    has_prefix(name, "[..]")
}

/// The row that leads to the folder above.
pub open spec fn parent_row() -> EntryView {
    EntryView { name: "[..] Parent Directory"@, is_dir: true, modified: None }
}

/// The later of two times, as far as they are known.
pub open spec fn later(a: Option<i128>, b: Option<i128>) -> Option<i128> {
    match (a, b) {
        (Some(x), Some(y)) => Some(
            if x > y {
                x
            } else {
                y
            },
        ),
        (Some(x), None) => Some(x),
        (None, y) => y,
    }
}

/// The time that a row shows: when the file was changed or made, whichever is
/// later. A file copied from an older source is made later than changed.
pub fn shown_time(modified: Option<i128>, created: Option<i128>) -> (r: Option<i128>)
    ensures
        r == later(modified, created),
{
    match (modified, created) {
        (Some(x), Some(y)) => if x > y {
            Some(x)
        } else {
            Some(y)
        },
        (Some(x), None) => Some(x),
        (None, y) => y,
    }
}

// ---------------------------------------------------------------------------
// Order
// ---------------------------------------------------------------------------

/// What a time is sorted by: no time comes before every time.
pub open spec fn time_value(t: Option<i128>) -> Seq<i128> {
    match t {
        Some(n) => seq![n],
        None => Seq::empty(),
    }
}

/// The size of a row; none counts as zero.
pub open spec fn size_or_zero(sizes: Map<Seq<char>, u64>, name: Seq<char>) -> u64 {
    if sizes.contains_key(name) {
        sizes[name]
    } else {
        0
    }
}

/// What a row is sorted by within its rank.
pub open spec fn column_value(
    e: EntryView,
    column: SortColumn,
    sizes: Map<Seq<char>, u64>,
) -> Seq<i128> {
    match column {
        SortColumn::Name => text_value(lowercase(e.name)),
        SortColumn::Size => seq![size_or_zero(sizes, e.name) as i128],
        SortColumn::Date => time_value(e.modified),
    }
}

/// The key of a row: the way up comes first, then folders, then files.
pub open spec fn row_key(
    e: EntryView,
    column: SortColumn,
    sizes: Map<Seq<char>, u64>,
) -> KeyView {
    KeyView {
        rank: if is_parent_row(e.name) {
            0
        } else if e.is_dir {
            1
        } else {
            2
        },
        value: column_value(e, column, sizes),
    }
}

/// The keys of all rows.
pub open spec fn row_keys(
    rows: Seq<EntryView>,
    column: SortColumn,
    sizes: Map<Seq<char>, u64>,
) -> Seq<KeyView> {
    Seq::new(rows.len(), |i: int| row_key(rows[i], column, sizes))
}

/// `rows` in the given order.
pub open spec fn rows_in_order(rows: Seq<EntryView>, order: Seq<usize>) -> Seq<EntryView> {
    Seq::new(order.len(), |i: int| rows[order[i] as int])
}

/// Whether `sorted` are `rows` in the order of the keys, rows with equal keys
/// in the order in which they were.
pub open spec fn is_sorted_by(
    rows: Seq<EntryView>,
    keys: Seq<KeyView>,
    ascending: bool,
    sorted: Seq<EntryView>,
) -> bool {
    exists|order: Seq<usize>|
        is_sorted_order(keys, ascending, order) && sorted == #[trigger] rows_in_order(rows, order)
}

/// The value of a row within its rank.
fn value_of(e: &FileEntry, column: SortColumn, sizes: &StringHashMap<u64>) -> (r: Vec<i128>)
    ensures
        r@ == column_value(e@, column, sizes@),
{
    match column {
        SortColumn::Name => value_of_text(to_lower(e.name.as_str()).as_str()),
        SortColumn::Size => {
            let size: u64 = match sizes.get(e.name.as_str()) {
                Some(n) => *n,
                None => 0,
            };
            let mut r: Vec<i128> = Vec::new();
            r.push(size as i128);
            assert(r@ =~= seq![size as i128]);
            r
        },
        SortColumn::Date => {
            let mut r: Vec<i128> = Vec::new();
            if let Some(n) = e.modified {
                r.push(n);
            }
            assert(r@ =~= time_value(e.modified));
            r
        },
    }
}

/// `rows` in the order of `keys`.
fn reorder(rows: &Vec<FileEntry>, keys: &Vec<SortKey>, ascending: bool) -> (r: Vec<FileEntry>)
    requires
        rows@.len() == keys@.len(),
    ensures
        is_sorted_by(entry_views(rows@), key_views(keys@), ascending, entry_views(r@)),
{
    let order = sorted_order(keys, ascending);
    let ghost all = entry_views(rows@);
    let mut r: Vec<FileEntry> = Vec::new();
    for i in 0..order.len()
        invariant
            rows@.len() == keys@.len(),
            all == entry_views(rows@),
            is_sorted_order(key_views(keys@), ascending, order@),
            entry_views(r@) == rows_in_order(all, order@).take(i as int),
    {
        let ghost before = entry_views(r@);
        r.push(rows[order[i]].copy());
        assert(entry_views(r@) =~= before.push(rows_in_order(all, order@)[i as int]));
        assert(entry_views(r@) =~= rows_in_order(all, order@).take(i + 1));
    }
    assert(rows_in_order(all, order@).take(order@.len() as int) =~= rows_in_order(all, order@));
    r
}

/// The key of an entry that was just read: folders come first, and a listing
/// by size starts in the order of the directory, as no size is known yet.
pub open spec fn read_key(e: EntryView, column: SortColumn) -> KeyView {
    KeyView {
        rank: if e.is_dir {
            0
        } else {
            1
        },
        value: if column == SortColumn::Size {
            Seq::empty()
        } else {
            column_value(e, column, Map::empty())
        },
    }
}

/// The keys of all entries that were just read.
pub open spec fn read_keys(rows: Seq<EntryView>, column: SortColumn) -> Seq<KeyView> {
    Seq::new(rows.len(), |i: int| read_key(rows[i], column))
}

// ---------------------------------------------------------------------------
// The listing
// ---------------------------------------------------------------------------

/// The listing of a folder.
pub struct Listing {
    pub rows: Vec<FileEntry>,
    /// The sizes that are known, by name.
    pub sizes: StringHashMap<u64>,
    /// The largest size that was seen.
    pub max_size: u64,
    /// The folders whose size is final, by name.
    pub dirs_done: NameSet,
    /// Since when a change on disk waits for a new listing, in milliseconds.
    pub refresh_since: Option<u64>,
}

/// Whether `rows` are a fresh listing of `entries` in the folder `path`: the
/// way up where there is one, then the entries in their order.
pub open spec fn is_fresh_listing(
    path: PathView,
    entries: Seq<EntryView>,
    column: SortColumn,
    ascending: bool,
    rows: Seq<EntryView>,
) -> bool {
    let head = if path.parent() is Some {
        seq![parent_row()]
    } else {
        Seq::empty()
    };
    exists|sorted: Seq<EntryView>|
        #[trigger] is_sorted_by(entries, read_keys(entries, column), ascending, sorted) && rows
            == head + sorted
}

impl Listing {
    /// The set of folders is sound.
    pub open spec fn wf(&self) -> bool {
        self.dirs_done.wf()
    }

    /// An empty listing.
    pub fn new() -> (r: Listing)
        ensures
            r.wf(),
            r.rows@.len() == 0,
            r.sizes@ == Map::<Seq<char>, u64>::empty(),
            r.max_size == 0,
            r.dirs_done@ == Set::<Seq<char>>::empty(),
            r.refresh_since is None,
    {
        Listing {
            rows: Vec::new(),
            sizes: StringHashMap::new(),
            max_size: 0,
            dirs_done: NameSet::new(),
            refresh_since: None,
        }
    }

    /// Lists the folder `path` anew: sizes are forgotten, and the rows are
    /// those of `entries`, which are `None` where it could not be read.
    pub fn refresh_contents(
        &mut self,
        path: &FsPath,
        entries: Option<&Vec<FileEntry>>,
        column: SortColumn,
        ascending: bool,
    )
        ensures
            final(self).wf(),
            final(self).sizes@ == Map::<Seq<char>, u64>::empty(),
            final(self).max_size == 0,
            final(self).dirs_done@ == Set::<Seq<char>>::empty(),
            final(self).refresh_since == old(self).refresh_since,
            is_fresh_listing(
                path@,
                match entries {
                    Some(v) => entry_views(v@),
                    None => Seq::empty(),
                },
                column,
                ascending,
                entry_views(final(self).rows@),
            ),
    {
        self.sizes.clear();
        self.max_size = 0;
        self.dirs_done.clear();
        let mut rows: Vec<FileEntry> = Vec::new();
        let ghost head: Seq<EntryView> = if path@.parent() is Some {
            seq![parent_row()]
        } else {
            Seq::empty()
        };
        if path.names.len() > 0 {
            rows.push(
                FileEntry {
                    name: copy_text("[..] Parent Directory"),
                    is_dir: true,
                    modified: None,
                },
            );
        }
        assert(entry_views(rows@) =~= head);
        let empty: Vec<FileEntry> = Vec::new();
        let list: &Vec<FileEntry> = match entries {
            Some(v) => v,
            None => &empty,
        };
        let ghost all = entry_views(list@);
        assert(entries is None ==> all =~= Seq::empty());
        let mut keys: Vec<SortKey> = Vec::new();
        for i in 0..list.len()
            invariant
                all == entry_views(list@),
                key_views(keys@) == read_keys(all, column).take(i as int),
        {
            let ghost before = key_views(keys@);
            let value: Vec<i128> = match column {
                SortColumn::Size => Vec::new(),
                _ => {
                    let none: StringHashMap<u64> = StringHashMap::new();
                    value_of(&list[i], column, &none)
                },
            };
            let rank: u8 = if list[i].is_dir {
                0
            } else {
                1
            };
            keys.push(SortKey { rank, value });
            assert(key_views(keys@) =~= before.push(read_keys(all, column)[i as int]));
            assert(key_views(keys@) =~= read_keys(all, column).take(i + 1));
        }
        assert(read_keys(all, column).take(list@.len() as int) =~= read_keys(all, column));
        let sorted = reorder(list, &keys, ascending);
        for i in 0..sorted.len()
            invariant
                entry_views(rows@) == head + entry_views(sorted@).take(i as int),
        {
            let ghost before = entry_views(rows@);
            rows.push(sorted[i].copy());
            assert(entry_views(rows@) =~= before.push(sorted@[i as int]@));
            assert(entry_views(rows@) =~= head + entry_views(sorted@).take(i + 1));
        }
        assert(entry_views(sorted@).take(sorted@.len() as int) =~= entry_views(sorted@));
        self.rows = rows;
    }

    /// Sorts the rows anew.
    pub fn sort_contents(&mut self, column: SortColumn, ascending: bool)
        ensures
            final(self).sizes@ == old(self).sizes@,
            final(self).max_size == old(self).max_size,
            final(self).dirs_done == old(self).dirs_done,
            final(self).refresh_since == old(self).refresh_since,
            is_sorted_by(
                entry_views(old(self).rows@),
                row_keys(entry_views(old(self).rows@), column, old(self).sizes@),
                ascending,
                entry_views(final(self).rows@),
            ),
    {
        let ghost all = entry_views(self.rows@);
        let ghost wanted = row_keys(all, column, self.sizes@);
        let n: usize = self.rows.len();
        let mut keys: Vec<SortKey> = Vec::new();
        for i in 0..n
            invariant
                n == self.rows@.len(),
                all == entry_views(self.rows@),
                wanted == row_keys(all, column, self.sizes@),
                key_views(keys@) == wanted.take(i as int),
        {
            let ghost before = key_views(keys@);
            let e = &self.rows[i];
            let rank: u8 = if names_parent(e.name.as_str()) {
                0
            } else if e.is_dir {
                1
            } else {
                2
            };
            keys.push(SortKey { rank, value: value_of(e, column, &self.sizes) });
            assert(key_views(keys@) =~= before.push(wanted[i as int]));
            assert(key_views(keys@) =~= wanted.take(i + 1));
        }
        assert(wanted.take(n as int) =~= wanted);
        self.rows = reorder(&self.rows, &keys, ascending);
    }

    /// Notes the size of a row.
    pub fn size_received(&mut self, name: &str, size: u64)
        ensures
            final(self).sizes@ == old(self).sizes@.insert(name@, size),
            final(self).max_size == if size > old(self).max_size {
                size
            } else {
                old(self).max_size
            },
            final(self).rows == old(self).rows,
            final(self).dirs_done == old(self).dirs_done,
            final(self).refresh_since == old(self).refresh_since,
    {
        self.sizes.insert(copy_text(name), size);
        if size > self.max_size {
            self.max_size = size;
        }
    }

    /// Notes that the size of a folder is final.
    pub fn dir_done(&mut self, name: &str)
        requires
            old(self).wf(),
        ensures
            final(self).wf(),
            final(self).dirs_done@ == old(self).dirs_done@.insert(name@),
            final(self).rows == old(self).rows,
            final(self).sizes@ == old(self).sizes@,
            final(self).max_size == old(self).max_size,
            final(self).refresh_since == old(self).refresh_since,
    {
        self.dirs_done.insert(name);
    }

    /// Whether the size of a row is still being summed up.
    pub fn is_computing(&self, e: &FileEntry) -> (r: bool)
        requires
            self.wf(),
        ensures
            r == (e.is_dir && !is_parent_row(e.name@) && !self.dirs_done@.contains(e.name@)),
    {
        e.is_dir && !names_parent(e.name.as_str()) && !self.dirs_done.contains(e.name.as_str())
    }
}

// ---------------------------------------------------------------------------
// Work in the background
// ---------------------------------------------------------------------------

/// The names of the rows that are folders, or those that are not; the way up
/// is neither.
pub open spec fn names_of_kind(rows: Seq<EntryView>, dirs: bool) -> Seq<Seq<char>>
    decreases rows.len(),
{
    if rows.len() == 0 {
        Seq::empty()
    } else {
        let before = names_of_kind(rows.drop_last(), dirs);
        if !is_parent_row(rows.last().name) && rows.last().is_dir == dirs {
            before.push(rows.last().name)
        } else {
            before
        }
    }
}

/// The names of the files whose size is looked up and of the folders whose
/// size is summed up in the background.
pub fn background_work(rows: &Vec<FileEntry>) -> (r: (Vec<String>, Vec<String>))
    ensures
        texts(r.0@) == names_of_kind(entry_views(rows@), false),
        texts(r.1@) == names_of_kind(entry_views(rows@), true),
{
    let mut files: Vec<String> = Vec::new();
    let mut dirs: Vec<String> = Vec::new();
    let ghost all = entry_views(rows@);
    assert(texts(files@) =~= names_of_kind(all.take(0), false));
    assert(texts(dirs@) =~= names_of_kind(all.take(0), true));
    for i in 0..rows.len()
        invariant
            all == entry_views(rows@),
            texts(files@) == names_of_kind(all.take(i as int), false),
            texts(dirs@) == names_of_kind(all.take(i as int), true),
    {
        assert(all.take(i + 1).drop_last() =~= all.take(i as int));
        assert(all.take(i + 1).last() == all[i as int]);
        let ghost files0 = texts(files@);
        let ghost dirs0 = texts(dirs@);
        if !names_parent(rows[i].name.as_str()) {
            let name = copy_text(rows[i].name.as_str());
            if rows[i].is_dir {
                dirs.push(name);
                assert(texts(dirs@) =~= dirs0.push(all[i as int].name));
            } else {
                files.push(name);
                assert(texts(files@) =~= files0.push(all[i as int].name));
            }
        }
    }
    assert(all.take(rows@.len() as int) =~= all);
    (files, dirs)
}

/// How many threads sum up folders: no more than there are folders, and four
/// where the machine does not say how many it has.
pub fn thread_count(available: Option<usize>, dirs: usize) -> (r: usize)
    ensures
        r == {
            let most = match available {
                Some(n) => n,
                None => 4usize,
            };
            let wanted = if dirs > 1 {
                dirs
            } else {
                1usize
            };
            if most < wanted {
                most
            } else {
                wanted
            }
        },
{
    let most: usize = match available {
        Some(n) => n,
        None => 4,
    };
    let wanted: usize = if dirs > 1 {
        dirs
    } else {
        1
    };
    if most < wanted {
        most
    } else {
        wanted
    }
}

// ---------------------------------------------------------------------------
// Changes on disk
// ---------------------------------------------------------------------------

/// A change that the watcher tells of.
#[derive(Clone, Copy, PartialEq, Eq, Structural)]
pub enum WatchEventKind {
    /// A file was changed.
    Modify,
    /// A file came or went.
    Structure,
}

/// What a change leads to.
#[derive(Clone, Copy, PartialEq, Eq, Structural)]
pub enum ChangeEffect {
    /// Nothing.
    Ignore,
    /// The size of the row is to be looked up.
    CheckSize,
    /// The folder is to be listed anew, once it is quiet.
    Relist,
}

/// Whether a row that is no folder bears the name, as far as the first row of
/// that name tells.
pub open spec fn first_row(rows: Seq<EntryView>, name: Seq<char>) -> Option<EntryView>
    decreases rows.len(),
{
    if rows.len() == 0 {
        None
    } else if rows[0].name == name {
        Some(rows[0])
    } else {
        first_row(rows.drop_first(), name)
    }
}

/// What a change of `path` leads to while the folder `current` is shown: only
/// changes in that folder matter; a changed file asks for its size, anything
/// else for a new listing.
pub open spec fn change_effect(
    current: PathView,
    rows: Seq<EntryView>,
    kind: WatchEventKind,
    path: PathView,
) -> ChangeEffect {
    if !path.lies_in(current) {
        ChangeEffect::Ignore
    } else if kind == WatchEventKind::Structure {
        ChangeEffect::Relist
    } else {
        match path.file_name() {
            Some(name) => match first_row(rows, name) {
                Some(e) => if e.is_dir {
                    ChangeEffect::Relist
                } else {
                    ChangeEffect::CheckSize
                },
                None => ChangeEffect::Relist,
            },
            None => ChangeEffect::Ignore,
        }
    }
}

/// The largest size of the rows but the way up.
pub open spec fn largest(rows: Seq<EntryView>, sizes: Map<Seq<char>, u64>) -> u64
    decreases rows.len(),
{
    if rows.len() == 0 {
        0
    } else {
        let before = largest(rows.drop_last(), sizes);
        let name = rows.last().name;
        if !is_parent_row(name) && sizes.contains_key(name) && sizes[name] > before {
            sizes[name]
        } else {
            before
        }
    }
}

/// The first row with the given name.
fn find_row(rows: &Vec<FileEntry>, name: &str) -> (r: Option<usize>)
    ensures
        match r {
            Some(i) => i < rows@.len() && first_row(entry_views(rows@), name@) == Some(
                rows@[i as int]@,
            ),
            None => first_row(entry_views(rows@), name@) is None,
        },
{
    let ghost all = entry_views(rows@);
    let mut i: usize = 0;
    assert(all.skip(0) =~= all);
    while i < rows.len()
        invariant
            i <= rows@.len(),
            all == entry_views(rows@),
            first_row(all, name@) == first_row(all.skip(i as int), name@),
        decreases rows@.len() - i,
    {
        if text_eq(rows[i].name.as_str(), name) {
            return Some(i);
        }
        assert(all.skip(i as int).drop_first() =~= all.skip(i + 1));
        i = i + 1;
    }
    None
}

impl Listing {
    /// What a change of `path` leads to; a new listing is asked for from
    /// `now_ms` on.
    pub fn on_change(
        &mut self,
        current: &FsPath,
        kind: WatchEventKind,
        path: &FsPath,
        now_ms: u64,
    ) -> (r: ChangeEffect)
        ensures
            r == change_effect(current@, entry_views(old(self).rows@), kind, path@),
            final(self).rows == old(self).rows,
            final(self).sizes == old(self).sizes,
            final(self).max_size == old(self).max_size,
            final(self).dirs_done == old(self).dirs_done,
            final(self).refresh_since == if r == ChangeEffect::Relist {
                Some(now_ms)
            } else {
                old(self).refresh_since
            },
    {
        let inside = match path.parent() {
            Some(p) => p.same(current),
            None => false,
        };
        if !inside {
            return ChangeEffect::Ignore;
        }
        match kind {
            WatchEventKind::Structure => {
                self.refresh_since = Some(now_ms);
                ChangeEffect::Relist
            },
            WatchEventKind::Modify => match path.file_name() {
                Some(name) => match find_row(&self.rows, name.as_str()) {
                    Some(i) => {
                        if self.rows[i].is_dir {
                            self.refresh_since = Some(now_ms);
                            ChangeEffect::Relist
                        } else {
                            ChangeEffect::CheckSize
                        }
                    },
                    None => {
                        self.refresh_since = Some(now_ms);
                        ChangeEffect::Relist
                    },
                },
                None => ChangeEffect::Ignore,
            },
        }
    }

    /// Notes the new size of a changed file. Says whether it changed, and
    /// whether the largest size is to be found anew.
    pub fn on_size_checked(&mut self, name: &str, size: u64) -> (r: (bool, bool))
        ensures
            r.0 == (size_or_zero(old(self).sizes@, name@) != size),
            r.1 == (r.0 && (size > old(self).max_size || size_or_zero(old(self).sizes@, name@)
                == old(self).max_size)),
            final(self).sizes@ == if r.0 {
                old(self).sizes@.insert(name@, size)
            } else {
                old(self).sizes@
            },
            final(self).rows == old(self).rows,
            final(self).max_size == old(self).max_size,
            final(self).dirs_done == old(self).dirs_done,
            final(self).refresh_since == old(self).refresh_since,
    {
        let before: u64 = match self.sizes.get(name) {
            Some(n) => *n,
            None => 0,
        };
        if before == size {
            return (false, false);
        }
        self.sizes.insert(copy_text(name), size);
        (true, size > self.max_size || before == self.max_size)
    }

    /// Finds the largest size anew.
    pub fn recompute_max(&mut self)
        ensures
            final(self).max_size == largest(entry_views(old(self).rows@), old(self).sizes@),
            final(self).rows == old(self).rows,
            final(self).sizes == old(self).sizes,
            final(self).dirs_done == old(self).dirs_done,
            final(self).refresh_since == old(self).refresh_since,
    {
        let ghost all = entry_views(self.rows@);
        let mut max: u64 = 0;
        let n: usize = self.rows.len();
        for i in 0..n
            invariant
                n == self.rows@.len(),
                all == entry_views(self.rows@),
                max == largest(all.take(i as int), self.sizes@),
        {
            assert(all.take(i + 1).drop_last() =~= all.take(i as int));
            assert(all.take(i + 1).last() == all[i as int]);
            if !names_parent(self.rows[i].name.as_str()) {
                if let Some(size) = self.sizes.get(self.rows[i].name.as_str()) {
                    if *size > max {
                        max = *size;
                    }
                }
            }
        }
        assert(all.take(n as int) =~= all);
        self.max_size = max;
    }

    /// Whether the new listing that was asked for is due: half a second after
    /// the last change. It is then asked for no more.
    pub fn flush_watch_debounce(&mut self, now_ms: u64) -> (r: bool)
        ensures
            r == match old(self).refresh_since {
                Some(t) => now_ms >= t && now_ms - t >= 500,
                None => false,
            },
            final(self).refresh_since == if r {
                None
            } else {
                old(self).refresh_since
            },
            final(self).rows == old(self).rows,
            final(self).sizes == old(self).sizes,
            final(self).max_size == old(self).max_size,
            final(self).dirs_done == old(self).dirs_done,
    {
        match self.refresh_since {
            Some(t) => {
                if now_ms >= t && now_ms - t >= 500 {
                    self.refresh_since = None;
                    true
                } else {
                    false
                }
            },
            None => false,
        }
    }
}

/// The largest size is one that no row exceeds, and some row has it unless it
/// is zero.
pub proof fn largest_is_the_maximum(rows: Seq<EntryView>, sizes: Map<Seq<char>, u64>)
    ensures
        forall|i: int|
            0 <= i < rows.len() && !is_parent_row((#[trigger] rows[i]).name) && sizes.contains_key(
                rows[i].name,
            ) ==> sizes[rows[i].name] <= largest(rows, sizes),
        largest(rows, sizes) > 0 ==> exists|i: int|
            0 <= i < rows.len() && sizes.contains_key((#[trigger] rows[i]).name)
                && sizes[rows[i].name] == largest(rows, sizes),
    decreases rows.len(),
{
    if rows.len() > 0 {
        let rest = rows.drop_last();
        largest_is_the_maximum(rest, sizes);
        assert forall|i: int|
            0 <= i < rows.len() && !is_parent_row((#[trigger] rows[i]).name) && sizes.contains_key(
                rows[i].name,
            ) implies sizes[rows[i].name] <= largest(rows, sizes) by {
            if i < rest.len() {
                assert(rest[i] == rows[i]);
            }
        }
        if largest(rows, sizes) > 0 {
            if largest(rows, sizes) == largest(rest, sizes) {
                let i = choose|i: int|
                    0 <= i < rest.len() && sizes.contains_key((#[trigger] rest[i]).name)
                        && sizes[rest[i].name] == largest(rest, sizes);
                assert(rows[i] == rest[i]);
            } else {
                assert(rows[rows.len() - 1] == rows.last());
            }
        }
    }
}

/// Sorting keeps every row: the sorted rows hold each row of the listing as
/// often as it did.
pub proof fn sorting_keeps_rows(
    rows: Seq<EntryView>,
    keys: Seq<KeyView>,
    ascending: bool,
    sorted: Seq<EntryView>,
)
    requires
        rows.len() == keys.len(),
        is_sorted_by(rows, keys, ascending, sorted),
    ensures
        sorted.len() == rows.len(),
        forall|e: EntryView| sorted.contains(e) <==> rows.contains(e),
{
    let order = choose|order: Seq<usize>|
        is_sorted_order(keys, ascending, order) && sorted == #[trigger] rows_in_order(rows, order);
    assert forall|e: EntryView| sorted.contains(e) <==> rows.contains(e) by {
        if sorted.contains(e) {
            let i = sorted.index_of(e);
            assert(sorted[i] == rows[order[i] as int]);
            assert(rows.contains(rows[order[i] as int]));
        }
        if rows.contains(e) {
            let k = rows.index_of(e);
            assert(k <= usize::MAX) by {
                positions_fit(keys, ascending, order);
            }
            assert(order.contains(k as usize));
            let i = order.index_of(k as usize);
            assert(sorted[i] == e);
        }
    }
}

/// A list whose positions are all listed is not too long to be numbered.
proof fn positions_fit(keys: Seq<KeyView>, ascending: bool, order: Seq<usize>)
    requires
        is_sorted_order(keys, ascending, order),
    ensures
        keys.len() <= usize::MAX + 1,
{
    if keys.len() > usize::MAX + 1 {
        // More positions than numbers: two of them would be equal.
        assert(forall|i: int, j: int|
            0 <= i < j < order.len() ==> #[trigger] order[i] != #[trigger] order[j]) by {
            assert forall|i: int, j: int| 0 <= i < j < order.len() implies #[trigger] order[i]
                != #[trigger] order[j] by {
                crate::sorting::order_is_total(
                    keys,
                    ascending,
                    order[i] as int,
                    order[j] as int,
                    0,
                );
            }
        }
        let all = order.map_values(|x: usize| x as int);
        assert(all.no_duplicates());
        let top = vstd::set_lib::set_int_range(0, usize::MAX + 1);
        vstd::set_lib::lemma_int_range(0, usize::MAX + 1);
        all.unique_seq_to_set();
        assert(all.to_set().subset_of(top)) by {
            assert forall|x: int| all.to_set().contains(x) implies top.contains(x) by {
                let i = all.index_of(x);
                assert(all[i] == order[i] as int);
            }
        }
        vstd::set_lib::lemma_len_subset(all.to_set(), top);
    }
}

// ---------------------------------------------------------------------------
// The filter
// ---------------------------------------------------------------------------

/// Whether a row passes the filter: its name holds the filter's text, both in
/// small letters; the way up always passes, and so does every row while there
/// is no filter.
pub open spec fn passes(
    name: Seq<char>,
    lower_name: Seq<char>,
    filter: Seq<char>,
    lower_filter: Seq<char>,
) -> bool {
    is_parent_row(name) || filter.len() == 0 || occurs_in(lower_name, lower_filter)
}

/// The rows that pass the filter.
pub open spec fn passing(rows: Seq<EntryView>, filter: Seq<char>) -> Seq<EntryView>
    decreases rows.len(),
{
    if rows.len() == 0 {
        Seq::empty()
    } else {
        let before = passing(rows.drop_last(), filter);
        let name = rows.last().name;
        if passes(name, lowercase(name), filter, lowercase(filter)) {
            before.push(rows.last())
        } else {
            before
        }
    }
}

/// Whether a row passes the filter, given its name and the filter in small
/// letters too.
pub fn row_passes(name: &str, lower_name: &str, filter: &str, lower_filter: &str) -> (r: bool)
    ensures
        r == passes(name@, lower_name@, filter@, lower_filter@),
{
    names_parent(name) || filter.unicode_len() == 0 || has_part(lower_name, lower_filter)
}

/// The rows that pass the filter, in their order.
pub fn filter_rows(rows: &Vec<FileEntry>, filter: &str) -> (r: Vec<FileEntry>)
    ensures
        entry_views(r@) == passing(entry_views(rows@), filter@),
{
    let lower_filter = to_lower(filter);
    let mut r: Vec<FileEntry> = Vec::new();
    let ghost all = entry_views(rows@);
    assert(entry_views(r@) =~= passing(all.take(0), filter@));
    for i in 0..rows.len()
        invariant
            all == entry_views(rows@),
            lower_filter@ == lowercase(filter@),
            entry_views(r@) == passing(all.take(i as int), filter@),
    {
        assert(all.take(i + 1).drop_last() =~= all.take(i as int));
        assert(all.take(i + 1).last() == all[i as int]);
        let ghost before = entry_views(r@);
        let name = rows[i].name.as_str();
        if row_passes(name, to_lower(name).as_str(), filter, lower_filter.as_str()) {
            r.push(rows[i].copy());
            assert(entry_views(r@) =~= before.push(all[i as int]));
        }
    }
    assert(all.take(rows@.len() as int) =~= all);
    r
}

/// Without a filter every row is shown.
pub proof fn no_filter_shows_all(rows: Seq<EntryView>)
    ensures
        passing(rows, Seq::empty()) == rows,
    decreases rows.len(),
{
    if rows.len() > 0 {
        no_filter_shows_all(rows.drop_last());
        assert(rows.drop_last().push(rows.last()) =~= rows);
    } else {
        assert(passing(rows, Seq::empty()) =~= rows);
    }
}

// ---------------------------------------------------------------------------
// What a listing shows
// ---------------------------------------------------------------------------

/// Whether a row is the way up: its name begins with two dots in brackets.
pub open spec fn shows_the_way_up(e: EntryView) -> bool {
    e.name.len() >= 4 && e.name[0] == '[' && e.name[1] == '.' && e.name[2] == '.' && e.name[3]
        == ']'
}

/// The way up is told by the first four characters of the name, and the row for it has them.
pub proof fn the_way_up_is_told_by_its_name(e: EntryView)
    ensures
        is_parent_row(e.name) <==> shows_the_way_up(e),
        shows_the_way_up(parent_row()),
        parent_row().is_dir,
{
    reveal_strlit("[..]");
    reveal_strlit("[..] Parent Directory");
    if shows_the_way_up(e) {
        assert(e.name.subrange(0, 4) =~= "[..]"@);
    }
    if is_parent_row(e.name) {
        let s = e.name.subrange(0, 4);
        assert(s[0] == '[' && s[1] == '.' && s[2] == '.' && s[3] == ']');
    }
    assert(parent_row().name.subrange(0, 4) =~= "[..]"@);
}

/// What a row with this key is in front of: the two rows of a sorted listing, by their keys.
proof fn rows_follow_their_keys(
    rows: Seq<EntryView>,
    keys: Seq<KeyView>,
    ascending: bool,
    sorted: Seq<EntryView>,
    order: Seq<usize>,
    i: int,
    j: int,
)
    requires
        rows.len() == keys.len(),
        is_sorted_order(keys, ascending, order),
        sorted == rows_in_order(rows, order),
        0 <= i < j < sorted.len(),
    ensures
        ({
            let a = keys[order[i] as int];
            let b = keys[order[j] as int];
            &&& sorted[i] == rows[order[i] as int]
            &&& sorted[j] == rows[order[j] as int]
            &&& order[i] != order[j]
            &&& a.rank <= b.rank
            &&& a.rank == b.rank && ascending ==> crate::sorting::lex_less(a.value, b.value)
                || a.value == b.value
            &&& a.rank == b.rank && !ascending ==> crate::sorting::lex_less(b.value, a.value)
                || a.value == b.value
            &&& a.rank == b.rank && a.value == b.value ==> order[i] < order[j]
        }),
{
    let (p, q) = (order[i] as int, order[j] as int);
    assert(crate::sorting::comes_before(keys, ascending, p, q));
    crate::sorting::order_is_total(keys, ascending, p, q, p);
    crate::sorting::order_is_total(keys, ascending, p, p, p);
    let a = keys[p];
    let b = keys[q];
    if a.rank == b.rank && a.value == b.value {
        assert(a == b);
        crate::sorting::order_is_total(keys, ascending, q, p, p);
        lex_less_is_never_of_itself(a.value);
    }
}

proof fn lex_less_is_never_of_itself(a: Seq<i128>)
    ensures
        !crate::sorting::lex_less(a, a),
    decreases a.len(),
{
    if a.len() > 0 {
        lex_less_is_never_of_itself(a.drop_first());
    }
}

/// In a sorted listing the way up comes before all else, and folders come before files.
pub proof fn folders_come_before_files(
    rows: Seq<EntryView>,
    column: SortColumn,
    sizes: Map<Seq<char>, u64>,
    ascending: bool,
    sorted: Seq<EntryView>,
    i: int,
    j: int,
)
    requires
        is_sorted_by(rows, row_keys(rows, column, sizes), ascending, sorted),
        0 <= i < j < sorted.len(),
    ensures
        shows_the_way_up(sorted[j]) ==> shows_the_way_up(sorted[i]),
        sorted[j].is_dir ==> sorted[i].is_dir || shows_the_way_up(sorted[i])
            || shows_the_way_up(sorted[j]),
{
    let keys = row_keys(rows, column, sizes);
    let order = choose|order: Seq<usize>|
        is_sorted_order(keys, ascending, order) && sorted == #[trigger] rows_in_order(rows, order);
    rows_follow_their_keys(rows, keys, ascending, sorted, order, i, j);
    the_way_up_is_told_by_its_name(sorted[i]);
    the_way_up_is_told_by_its_name(sorted[j]);
}

/// Sorted by name, of two folders or two files whose names in small letters agree up to the place
/// `k`, the first ends there or goes on with no later character; downwards it is the other way
/// round.
pub proof fn names_come_in_order(
    rows: Seq<EntryView>,
    sizes: Map<Seq<char>, u64>,
    ascending: bool,
    sorted: Seq<EntryView>,
    i: int,
    j: int,
    k: int,
)
    requires
        is_sorted_by(rows, row_keys(rows, SortColumn::Name, sizes), ascending, sorted),
        0 <= i < j < sorted.len(),
        !shows_the_way_up(sorted[i]),
        !shows_the_way_up(sorted[j]),
        sorted[i].is_dir == sorted[j].is_dir,
        0 <= k <= lowercase(sorted[i].name).len(),
        k <= lowercase(sorted[j].name).len(),
        lowercase(sorted[i].name).take(k) == lowercase(sorted[j].name).take(k),
    ensures
        ({
            let a = lowercase(sorted[i].name);
            let b = lowercase(sorted[j].name);
            &&& ascending ==> k == a.len() || (k < b.len() && a[k] <= b[k])
            &&& !ascending ==> k == b.len() || (k < a.len() && b[k] <= a[k])
        }),
{
    let keys = row_keys(rows, SortColumn::Name, sizes);
    let order = choose|order: Seq<usize>|
        is_sorted_order(keys, ascending, order) && sorted == #[trigger] rows_in_order(rows, order);
    rows_follow_their_keys(rows, keys, ascending, sorted, order, i, j);
    the_way_up_is_told_by_its_name(sorted[i]);
    the_way_up_is_told_by_its_name(sorted[j]);
    names_do_not_fall(sorted[i].name, sorted[j].name, ascending, k);
}

proof fn names_do_not_fall(x: Seq<char>, y: Seq<char>, ascending: bool, k: int)
    requires
        ({
            let a = text_value(lowercase(x));
            let b = text_value(lowercase(y));
            a == b || if ascending {
                crate::sorting::lex_less(a, b)
            } else {
                crate::sorting::lex_less(b, a)
            }
        }),
        0 <= k <= lowercase(x).len(),
        k <= lowercase(y).len(),
        lowercase(x).take(k) == lowercase(y).take(k),
    ensures
        ({
            let a = lowercase(x);
            let b = lowercase(y);
            &&& ascending ==> k == a.len() || (k < b.len() && a[k] <= b[k])
            &&& !ascending ==> k == b.len() || (k < a.len() && b[k] <= a[k])
        }),
{
    let a = text_value(lowercase(x));
    let b = text_value(lowercase(y));
    assert(a.take(k) =~= b.take(k)) by {
        assert forall|m: int| 0 <= m < k implies a[m] == b[m] by {
            assert(lowercase(x)[m] == lowercase(x).take(k)[m]);
            assert(lowercase(y)[m] == lowercase(y).take(k)[m]);
        }
    }
    let (c, d) = (lowercase(x)[k], lowercase(y)[k]);
    crate::sorting::characters_are_ordered_by_number(c, d);
    crate::sorting::characters_are_ordered_by_number(d, c);
    assert(k < a.len() ==> a[k] == c as u32 as i128);
    assert(k < b.len() ==> b[k] == d as u32 as i128);
    if ascending {
        crate::sorting::lists_in_order_do_not_fall(a, b, k);
    } else {
        crate::sorting::lists_in_order_do_not_fall(b, a, k);
    }
}

/// Sorted by size, of two folders or two files the first is no larger, and downwards no smaller;
/// one of unknown size counts as empty.
pub proof fn sizes_come_in_order(
    rows: Seq<EntryView>,
    sizes: Map<Seq<char>, u64>,
    ascending: bool,
    sorted: Seq<EntryView>,
    i: int,
    j: int,
)
    requires
        is_sorted_by(rows, row_keys(rows, SortColumn::Size, sizes), ascending, sorted),
        0 <= i < j < sorted.len(),
        !shows_the_way_up(sorted[i]),
        !shows_the_way_up(sorted[j]),
        sorted[i].is_dir == sorted[j].is_dir,
    ensures
        ({
            let a = if sizes.contains_key(sorted[i].name) {
                sizes[sorted[i].name]
            } else {
                0
            };
            let b = if sizes.contains_key(sorted[j].name) {
                sizes[sorted[j].name]
            } else {
                0
            };
            if ascending {
                a <= b
            } else {
                b <= a
            }
        }),
{
    let keys = row_keys(rows, SortColumn::Size, sizes);
    let order = choose|order: Seq<usize>|
        is_sorted_order(keys, ascending, order) && sorted == #[trigger] rows_in_order(rows, order);
    rows_follow_their_keys(rows, keys, ascending, sorted, order, i, j);
    the_way_up_is_told_by_its_name(sorted[i]);
    the_way_up_is_told_by_its_name(sorted[j]);
    let a = keys[order[i] as int].value;
    let b = keys[order[j] as int].value;
    assert(a.take(0) =~= b.take(0));
    if ascending {
        crate::sorting::lists_in_order_do_not_fall(a, b, 0);
    } else {
        crate::sorting::lists_in_order_do_not_fall(b, a, 0);
    }
}

/// Whether the time `a` is no later than the time `b`; one that is not known comes before all.
pub open spec fn no_later(a: Option<i128>, b: Option<i128>) -> bool {
    a is None || (b is Some && a->0 <= b->0)
}

/// Sorted by date, of two folders or two files the first is no later, and downwards no earlier.
pub proof fn dates_come_in_order(
    rows: Seq<EntryView>,
    sizes: Map<Seq<char>, u64>,
    ascending: bool,
    sorted: Seq<EntryView>,
    i: int,
    j: int,
)
    requires
        is_sorted_by(rows, row_keys(rows, SortColumn::Date, sizes), ascending, sorted),
        0 <= i < j < sorted.len(),
        !shows_the_way_up(sorted[i]),
        !shows_the_way_up(sorted[j]),
        sorted[i].is_dir == sorted[j].is_dir,
    ensures
        if ascending {
            no_later(sorted[i].modified, sorted[j].modified)
        } else {
            no_later(sorted[j].modified, sorted[i].modified)
        },
{
    let keys = row_keys(rows, SortColumn::Date, sizes);
    let order = choose|order: Seq<usize>|
        is_sorted_order(keys, ascending, order) && sorted == #[trigger] rows_in_order(rows, order);
    rows_follow_their_keys(rows, keys, ascending, sorted, order, i, j);
    the_way_up_is_told_by_its_name(sorted[i]);
    the_way_up_is_told_by_its_name(sorted[j]);
    let a = keys[order[i] as int].value;
    let b = keys[order[j] as int].value;
    assert(a.take(0) =~= b.take(0));
    if ascending {
        crate::sorting::lists_in_order_do_not_fall(a, b, 0);
    } else {
        crate::sorting::lists_in_order_do_not_fall(b, a, 0);
    }
}

/// Sorting puts every row into one place, and rows that the column does not tell apart stay in
/// the order in which they were.
pub proof fn equal_rows_stay_in_order(
    rows: Seq<EntryView>,
    column: SortColumn,
    sizes: Map<Seq<char>, u64>,
    ascending: bool,
    sorted: Seq<EntryView>,
)
    requires
        is_sorted_by(rows, row_keys(rows, column, sizes), ascending, sorted),
    ensures
        exists|order: Seq<usize>|
            {
                &&& order.len() == rows.len()
                &&& sorted.len() == rows.len()
                &&& forall|i: int|
                    0 <= i < order.len() ==> (#[trigger] order[i]) < rows.len() && sorted[i]
                        == rows[order[i] as int]
                &&& forall|i: int, j: int|
                    0 <= i < j < order.len() ==> #[trigger] order[i] != #[trigger] order[j]
                &&& forall|i: int, j: int|
                    0 <= i < j < order.len() && shows_the_way_up(sorted[i]) == shows_the_way_up(
                        sorted[j],
                    ) && sorted[i].is_dir == sorted[j].is_dir && match column {
                        SortColumn::Name => lowercase(sorted[i].name) == lowercase(sorted[j].name),
                        SortColumn::Size => sizes.contains_key(sorted[i].name)
                            && sizes.contains_key(sorted[j].name) && sizes[sorted[i].name]
                            == sizes[sorted[j].name],
                        SortColumn::Date => sorted[i].modified == sorted[j].modified,
                    } ==> #[trigger] order[i] < #[trigger] order[j]
            },
{
    let keys = row_keys(rows, column, sizes);
    let order = choose|order: Seq<usize>|
        is_sorted_order(keys, ascending, order) && sorted == #[trigger] rows_in_order(rows, order);
    assert forall|i: int, j: int| 0 <= i < j < order.len() implies #[trigger] order[i]
        != #[trigger] order[j] by {
        rows_follow_their_keys(rows, keys, ascending, sorted, order, i, j);
    }
    assert forall|i: int, j: int|
        0 <= i < j < order.len() && shows_the_way_up(sorted[i]) == shows_the_way_up(sorted[j])
            && sorted[i].is_dir == sorted[j].is_dir && match column {
            SortColumn::Name => lowercase(sorted[i].name) == lowercase(sorted[j].name),
            SortColumn::Size => sizes.contains_key(sorted[i].name) && sizes.contains_key(
                sorted[j].name,
            ) && sizes[sorted[i].name] == sizes[sorted[j].name],
            SortColumn::Date => sorted[i].modified == sorted[j].modified,
        } implies #[trigger] order[i] < #[trigger] order[j] by {
        rows_follow_their_keys(rows, keys, ascending, sorted, order, i, j);
        the_way_up_is_told_by_its_name(sorted[i]);
        the_way_up_is_told_by_its_name(sorted[j]);
    }
}

/// A fresh listing begins with the way up unless the folder is a root, and holds the entries
/// behind it: folders before files, by name or by date as they come; by size in the order of the
/// directory.
pub proof fn a_fresh_listing_is_in_order(
    path: PathView,
    entries: Seq<EntryView>,
    column: SortColumn,
    ascending: bool,
    rows: Seq<EntryView>,
    i: int,
    j: int,
    k: int,
)
    requires
        is_fresh_listing(path, entries, column, ascending, rows),
    ensures
        rows.len() == entries.len() + if path.names.len() > 0 {
            1nat
        } else {
            0nat
        },
        path.names.len() > 0 ==> rows[0] == parent_row(),
        ({
            let from = if path.names.len() > 0 {
                1int
            } else {
                0int
            };
            from <= i < j < rows.len() ==> {
                &&& rows[j].is_dir ==> rows[i].is_dir
                &&& rows[i].is_dir == rows[j].is_dir && column == SortColumn::Date ==> if ascending {
                    no_later(rows[i].modified, rows[j].modified)
                } else {
                    no_later(rows[j].modified, rows[i].modified)
                }
                &&& rows[i].is_dir == rows[j].is_dir && column == SortColumn::Name && 0 <= k
                    <= lowercase(rows[i].name).len() && k <= lowercase(rows[j].name).len()
                    && lowercase(rows[i].name).take(k) == lowercase(rows[j].name).take(k) ==> {
                    let a = lowercase(rows[i].name);
                    let b = lowercase(rows[j].name);
                    &&& ascending ==> k == a.len() || (k < b.len() && a[k] <= b[k])
                    &&& !ascending ==> k == b.len() || (k < a.len() && b[k] <= a[k])
                }
                &&& rows[i].is_dir == rows[j].is_dir && column == SortColumn::Size ==> exists|
                    p: int,
                    q: int,
                |
                    0 <= p < q < entries.len() && #[trigger] entries[p] == rows[i]
                        && #[trigger] entries[q] == rows[j]
            }
        }),
{
    let keys = read_keys(entries, column);
    let sorted = choose|sorted: Seq<EntryView>|
        #[trigger] is_sorted_by(entries, keys, ascending, sorted) && rows == (
        if path.parent() is Some {
            seq![parent_row()]
        } else {
            Seq::empty()
        }) + sorted;
    let order = choose|order: Seq<usize>|
        is_sorted_order(keys, ascending, order) && sorted == #[trigger] rows_in_order(
            entries,
            order,
        );
    let from = if path.names.len() > 0 {
        1int
    } else {
        0int
    };
    if from <= i < j < rows.len() {
        let (m, n) = (i - from, j - from);
        assert(rows[i] == sorted[m] && rows[j] == sorted[n]);
        rows_follow_their_keys(entries, keys, ascending, sorted, order, m, n);
        let a = keys[order[m] as int].value;
        let b = keys[order[n] as int].value;
        if rows[i].is_dir == rows[j].is_dir {
            if column == SortColumn::Date {
                assert(a.take(0) =~= b.take(0));
                if ascending {
                    crate::sorting::lists_in_order_do_not_fall(a, b, 0);
                } else {
                    crate::sorting::lists_in_order_do_not_fall(b, a, 0);
                }
            } else if column == SortColumn::Name {
                if 0 <= k <= lowercase(rows[i].name).len() && k <= lowercase(rows[j].name).len()
                    && lowercase(rows[i].name).take(k) == lowercase(rows[j].name).take(k) {
                    names_do_not_fall(rows[i].name, rows[j].name, ascending, k);
                }
            } else {
                assert(entries[order[m] as int] == rows[i]);
                assert(entries[order[n] as int] == rows[j]);
            }
        }
    }
}

/// A row passes the filter where its name in small letters holds the filter in small letters,
/// with anything before it and behind it.
pub proof fn a_name_that_holds_the_filter_passes(
    e: EntryView,
    filter: Seq<char>,
    before: Seq<char>,
    behind: Seq<char>,
)
    requires
        lowercase(e.name) == before + lowercase(filter) + behind,
    ensures
        passing(seq![e], filter) == seq![e],
        passes(e.name, lowercase(e.name), filter, lowercase(filter)),
{
    a_part_is_found(before, lowercase(filter), behind);
    one_row(e, filter);
}

/// A row that passes a filter is the way up, or its name in small letters holds the filter in
/// small letters.
pub proof fn a_row_that_passes_holds_the_filter(e: EntryView, filter: Seq<char>)
    requires
        passing(seq![e], filter).len() > 0 || passes(
            e.name,
            lowercase(e.name),
            filter,
            lowercase(filter),
        ),
        filter.len() > 0,
        !shows_the_way_up(e),
    ensures
        exists|before: Seq<char>, behind: Seq<char>|
            lowercase(e.name) == #[trigger] (before + lowercase(filter) + behind),
{
    the_way_up_is_told_by_its_name(e);
    one_row(e, filter);
    what_is_found_is_there(lowercase(e.name), lowercase(filter));
}

/// The way up passes every filter.
pub proof fn the_way_up_passes(e: EntryView, filter: Seq<char>)
    requires
        shows_the_way_up(e),
    ensures
        passing(seq![e], filter) == seq![e],
{
    the_way_up_is_told_by_its_name(e);
    one_row(e, filter);
}

/// Each row passes or does not by itself, and those that do stay in their order.
pub proof fn rows_pass_one_by_one(a: Seq<EntryView>, b: Seq<EntryView>, filter: Seq<char>)
    ensures
        passing(a + b, filter) == passing(a, filter) + passing(b, filter),
    decreases b.len(),
{
    if b.len() == 0 {
        assert(a + b =~= a);
        assert(passing(a, filter) + passing(b, filter) =~= passing(a, filter));
    } else {
        rows_pass_one_by_one(a, b.drop_last(), filter);
        assert((a + b).drop_last() =~= a + b.drop_last());
        assert((a + b).last() == b.last());
        assert(passing(a + b, filter) =~= passing(a, filter) + passing(b, filter));
    }
}

proof fn one_row(e: EntryView, filter: Seq<char>)
    ensures
        passing(seq![e], filter) == if passes(e.name, lowercase(e.name), filter, lowercase(filter)) {
            seq![e]
        } else {
            Seq::empty()
        },
{
    reveal_with_fuel(passing, 2);
    assert(seq![e].drop_last() =~= Seq::<EntryView>::empty());
    assert(Seq::<EntryView>::empty().push(e) =~= seq![e]);
}

/// The names that are measured are those of all rows but the way up: files for themselves, folders
/// for themselves, each in their order.
pub proof fn rows_are_measured_by_kind(rows: Seq<EntryView>, e: EntryView, dirs: bool)
    ensures
        names_of_kind(rows.push(e), dirs) == if !shows_the_way_up(e) && e.is_dir == dirs {
            names_of_kind(rows, dirs).push(e.name)
        } else {
            names_of_kind(rows, dirs)
        },
        names_of_kind(Seq::empty(), dirs).len() == 0,
{
    the_way_up_is_told_by_its_name(e);
    assert(rows.push(e).drop_last() =~= rows);
}

/// A row shows the later of the two times, and the one that is known where only one is.
pub proof fn the_later_time_is_shown(a: i128, b: i128)
    ensures
        later(Some(a), Some(b)) matches Some(t) && t >= a && t >= b && (t == a || t == b),
        later(Some(a), None) == Some(a),
        later(None, Some(b)) == Some(b),
        later(None, None) is None,
{
}

/// A change elsewhere is ignored. In the folder that is shown, what comes or goes leads to a new
/// listing, and so does a changed entry that is a folder or has no row; a changed file has its size
/// looked up.
pub proof fn changes_in_the_shown_folder_matter(
    current: PathView,
    rows: Seq<EntryView>,
    kind: WatchEventKind,
    dir: PathView,
    name: Seq<char>,
    i: int,
)
    requires
        name != seq!['.'],
        name != seq!['.', '.'],
    ensures
        !dir.is_same(current) ==> change_effect(current, rows, kind, dir.join(name))
            == ChangeEffect::Ignore,
        dir.is_same(current) ==> change_effect(
            current,
            rows,
            WatchEventKind::Structure,
            dir.join(name),
        ) == ChangeEffect::Relist,
        dir.is_same(current) && 0 <= i < rows.len() && rows[i].name == name && (forall|k: int|
            0 <= k < i ==> (#[trigger] rows[k]).name != name) ==> change_effect(
            current,
            rows,
            WatchEventKind::Modify,
            dir.join(name),
        ) == if rows[i].is_dir {
            ChangeEffect::Relist
        } else {
            ChangeEffect::CheckSize
        },
        dir.is_same(current) && (forall|k: int|
            0 <= k < rows.len() ==> (#[trigger] rows[k]).name != name) ==> change_effect(
            current,
            rows,
            WatchEventKind::Modify,
            dir.join(name),
        ) == ChangeEffect::Relist,
{
    crate::paths::an_entry_has_the_names_of_its_folder(dir, name);
    let up = dir.join(name).parent()->0;
    assert(up.is_same(current) <==> dir.is_same(current));
    if 0 <= i < rows.len() && rows[i].name == name && (forall|k: int|
        0 <= k < i ==> (#[trigger] rows[k]).name != name) {
        first_row_is(rows, name, i);
    }
    if forall|k: int| 0 <= k < rows.len() ==> (#[trigger] rows[k]).name != name {
        no_first_row(rows, name);
    }
}

proof fn first_row_is(rows: Seq<EntryView>, name: Seq<char>, i: int)
    requires
        0 <= i < rows.len(),
        rows[i].name == name,
        forall|k: int| 0 <= k < i ==> (#[trigger] rows[k]).name != name,
    ensures
        first_row(rows, name) == Some(rows[i]),
    decreases rows.len(),
{
    if i > 0 {
        let rest = rows.drop_first();
        assert(rows[0].name != name);
        assert forall|k: int| 0 <= k < i - 1 implies (#[trigger] rest[k]).name != name by {
            assert(rest[k] == rows[k + 1]);
        }
        assert(rest[i - 1] == rows[i]);
        first_row_is(rest, name, i - 1);
    }
}

proof fn no_first_row(rows: Seq<EntryView>, name: Seq<char>)
    requires
        forall|k: int| 0 <= k < rows.len() ==> (#[trigger] rows[k]).name != name,
    ensures
        first_row(rows, name) is None,
    decreases rows.len(),
{
    if rows.len() > 0 {
        let rest = rows.drop_first();
        assert(rows[0].name != name);
        assert forall|k: int| 0 <= k < rest.len() implies (#[trigger] rest[k]).name != name by {
            assert(rest[k] == rows[k + 1]);
        }
        no_first_row(rest, name);
    }
}

} // verus!
