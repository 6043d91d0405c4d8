//! Restoring items from the recycle bin: its index files, and the search for
//! the item that came from a given path.
use crate::numerals::{le32_at, read_le32};
use crate::path_keys::{windows_key, windows_path_eq};
use crate::paths::{path_views, FsPath, PathPrefix, PathView};
use crate::text::{begins_with, chars_of, copy_text, has_prefix, text_between, texts};
use crate::wide::{before_zero, decode_utf16, from_utf16, units_from, units_of_bytes};
use crate::wide::{units_within, zero_position};
use vstd::prelude::*;
use vstd::string::StringExecFns;

verus! {

// ---------------------------------------------------------------------------
// Index files
// ---------------------------------------------------------------------------

/// `s` without the zeros at its end.
pub open spec fn without_zeros(s: Seq<char>) -> Seq<char>
    decreases s.len(),
{
    if s.len() > 0 && s.last() == '\0' {
        without_zeros(s.drop_last())
    } else {
        s
    }
}

/// Whether an index file has the first of its two layouts.
pub open spec fn is_first_layout(data: Seq<u8>) -> bool {
    le32_at(data, 0) == 1 && le32_at(data, 4) == 0
}

/// The path in an index file. In the first layout it is zero-terminated and
/// starts at byte 24; in the other one its length stands there, before it.
pub open spec fn index_path(data: Seq<u8>) -> Option<Seq<char>> {
    if data.len() < 28 {
        None
    } else if is_first_layout(data) {
        decode_utf16(before_zero(units_of_bytes(data.skip(24))))
    } else if data.len() < 28 + 2 * le32_at(data, 24) {
        None
    } else {
        match decode_utf16(units_of_bytes(data.subrange(28, 28 + 2 * le32_at(data, 24)))) {
            Some(s) => Some(without_zeros(s)),
            None => None,
        }
    }
}

/// Whether the length in an index file is no negative number.
pub open spec fn has_sound_length(data: Seq<u8>) -> bool {
    data.len() < 28 || is_first_layout(data) || le32_at(data, 24) <= i32::MAX
}

/// Whether the length in an index file is no negative number.
pub fn sound_length(data: &[u8]) -> (r: bool)
    ensures
        r == has_sound_length(data@),
{
    data.len() < 28 || (read_le32(data, 0) == 1 && read_le32(data, 4) == 0) || read_le32(data, 24)
        <= 0x7FFF_FFFF
}

/// `s` without the zeros at its end.
fn strip_zeros(s: &str) -> (r: String)
    ensures
        r@ == without_zeros(s@),
{
    let v = chars_of(s);
    let mut n: usize = v.len();
    assert(s@.take(n as int) =~= s@);
    while n > 0 && v[n - 1] == '\0'
        invariant
            v@ == s@,
            n <= v@.len(),
            without_zeros(s@) == without_zeros(s@.take(n as int)),
        decreases n,
    {
        assert(s@.take(n as int).drop_last() =~= s@.take(n - 1));
        n = n - 1;
    }
    let r = text_between(&v, 0, n);
    assert(r@ =~= s@.take(n as int));
    r
}

/// The path in an index file.
pub fn parse_index(data: &[u8]) -> (r: Option<String>)
    requires
        has_sound_length(data@),
    ensures
        match r {
            Some(s) => index_path(data@) == Some(s@),
            None => index_path(data@) is None,
        },
{
    if data.len() < 28 {
        return None;
    }
    if read_le32(data, 0) == 1 && read_le32(data, 4) == 0 {
        let words = units_from(data, 24);
        let mut n: usize = 0;
        while n < words.len() && words[n] != 0
            invariant
                n <= words@.len(),
                forall|k: int| 0 <= k < n ==> words@[k] != 0,
            decreases words@.len() - n,
        {
            n = n + 1;
        }
        proof {
            crate::wide::zero_position_holds(words@);
        }
        assert(zero_position(words@) == n);
        let mut part: Vec<u16> = Vec::new();
        for i in 0..n
            invariant
                n <= words@.len(),
                part@ == words@.take(i as int),
        {
            part.push(words[i]);
            assert(part@ =~= words@.take(i + 1));
        }
        return from_utf16(part.as_slice());
    }
    let len: u64 = read_le32(data, 24) as u64;
    let end: u64 = 28 + 2 * len;
    if (data.len() as u64) < end {
        return None;
    }
    let words = units_within(data, 28, end as usize);
    match from_utf16(words.as_slice()) {
        Some(s) => Some(strip_zeros(s.as_str())),
        None => None,
    }
}

/// Whether a file of the recycle bin is an index file, by its name.
pub open spec fn is_index_name(name: Seq<char>) -> bool {
    begins_with(name, "$I"@)
}

/// The name of the content that belongs to an index file.
pub open spec fn content_name(index: Seq<char>) -> Seq<char> {
    "$R"@ + index.skip(2)
}

/// The name of the content that belongs to an index file.
pub fn content_name_of(index: &str) -> (r: String)
    requires
        is_index_name(index@),
    ensures
        r@ == content_name(index@),
{
    proof {
        reveal_strlit("$I");
    }
    let v = chars_of(index);
    let n: usize = v.len();
    let rest = text_between(&v, 2, n);
    assert(rest@ =~= index@.skip(2));
    let mut r = copy_text("$R");
    r.append(rest.as_str());
    r
}

/// The recycle bin of the drive of a path: in the directory of the first two
/// components, if there are two.
pub open spec fn bin_of(p: PathView) -> Option<PathView> {
    if p.component_count() < 2 {
        None
    } else {
        let names = 2 - (if p.prefix.is_empty() {
            0int
        } else {
            1int
        }) - (if p.rooted {
            1int
        } else {
            0int
        });
        Some(p.above(names as nat).usual().join("$Recycle.Bin"@))
    }
}

/// The recycle bin of the drive of a path.
pub fn recycle_bin_of(p: &FsPath) -> (r: Option<FsPath>)
    ensures
        match r {
            Some(b) => bin_of(p@) == Some(b@),
            None => bin_of(p@) is None,
        },
{
    let mut n: usize = 2;
    if !p.prefix.is_empty() {
        n = n - 1;
    }
    if p.rooted {
        n = n - 1;
    }
    if p.names.len() < n {
        return None;
    }
    Some(p.above(n).usual().join("$Recycle.Bin"))
}

// ---------------------------------------------------------------------------
// The search
// ---------------------------------------------------------------------------

/// What a restoration waits for.
#[derive(Clone, Copy, PartialEq, Eq, Structural)]
pub enum RestorePhase {
    /// Whether the path exists.
    CheckPresent,
    /// The folders of the recycle bin.
    ListBin,
    /// Whether the folder is a directory and what it holds.
    ListFolder,
    /// The contents of the index file.
    ReadIndex,
    /// Whether the content that belongs to the index file exists.
    CheckContent,
    /// The attempt to move the content to the path.
    MoveBack,
    /// Whether the path exists after all.
    CheckAgain,
    /// Nothing: it is over.
    Finished,
}

/// A restoration: the paths, how far it has come with them, and where the
/// search for the present one stands.
pub struct RestoreRun {
    pub paths: Vec<FsPath>,
    /// The position of the path that is searched for.
    pub at: usize,
    pub restored: usize,
    pub failed: Vec<FsPath>,
    /// The recycle bin that is searched.
    pub bin: FsPath,
    /// The folders that wait, the next one last.
    pub folders: Vec<FsPath>,
    pub folder: FsPath,
    /// The index files that wait, the next one last.
    pub indexes: Vec<String>,
    pub index: String,
    pub phase: RestorePhase,
}

/// The view of a `RestoreRun`.
#[verifier::ext_equal]
pub struct RestoreView {
    pub paths: Seq<PathView>,
    pub at: nat,
    pub restored: nat,
    pub failed: Seq<PathView>,
    pub bin: PathView,
    pub folders: Seq<PathView>,
    pub folder: PathView,
    pub indexes: Seq<Seq<char>>,
    pub index: Seq<char>,
    pub phase: RestorePhase,
}

impl View for RestoreRun {
    type V = RestoreView;

    open spec fn view(&self) -> RestoreView {
        RestoreView {
            paths: path_views(self.paths@),
            at: self.at as nat,
            restored: self.restored as nat,
            failed: path_views(self.failed@),
            bin: self.bin@,
            folders: path_views(self.folders@),
            folder: self.folder@,
            indexes: texts(self.indexes@),
            index: self.index@,
            phase: self.phase,
        }
    }
}

/// The names of index files in a list, the last one first.
pub open spec fn index_names(names: Seq<Seq<char>>) -> Seq<Seq<char>>
    decreases names.len(),
{
    if names.len() == 0 {
        Seq::empty()
    } else {
        let rest = index_names(names.drop_first());
        if is_index_name(names[0]) {
            rest.push(names[0])
        } else {
            rest
        }
    }
}

/// Whether `part` is what is left of `whole` once some of it is taken out.
pub open spec fn is_part_of(part: Seq<PathView>, whole: Seq<PathView>) -> bool
    decreases whole.len(),
{
    if part.len() == 0 {
        true
    } else if whole.len() == 0 {
        false
    } else {
        (part.last() == whole.last() && is_part_of(part.drop_last(), whole.drop_last()))
            || is_part_of(part, whole.drop_last())
    }
}

impl RestoreView {
    /// The path that is searched for.
    pub open spec fn path(self) -> PathView {
        self.paths[self.at as int]
    }

    /// The search for path `i`, or the end.
    pub open spec fn begin(self, i: nat) -> RestoreView {
        if i >= self.paths.len() {
            RestoreView { at: i, phase: RestorePhase::Finished, ..self }
        } else {
            RestoreView { at: i, phase: RestorePhase::CheckPresent, ..self }
        }
    }

    /// The path is in its place.
    pub open spec fn succeed(self) -> RestoreView {
        RestoreView { restored: self.restored + 1, ..self }.begin(self.at + 1)
    }

    /// The path is not in its place.
    pub open spec fn fail(self) -> RestoreView {
        RestoreView { failed: self.failed.push(self.path()), ..self }.begin(self.at + 1)
    }

    /// The next folder, or the end of the search for the path.
    pub open spec fn next_folder(self) -> RestoreView {
        if self.folders.len() == 0 {
            RestoreView { phase: RestorePhase::CheckAgain, ..self }
        } else {
            RestoreView {
                folder: self.folders.last(),
                folders: self.folders.drop_last(),
                phase: RestorePhase::ListFolder,
                ..self
            }
        }
    }

    /// The next index file, or the next folder.
    pub open spec fn next_index(self) -> RestoreView {
        if self.indexes.len() == 0 {
            self.next_folder()
        } else {
            RestoreView {
                index: self.indexes.last(),
                indexes: self.indexes.drop_last(),
                phase: RestorePhase::ReadIndex,
                ..self
            }
        }
    }

    /// It is known whether the path exists: then nothing is to be done for
    /// it, and else its recycle bin is searched, if it can have one.
    pub open spec fn presence_known(self, present: bool) -> RestoreView {
        if present {
            self.succeed()
        } else {
            match bin_of(self.path()) {
                Some(bin) => RestoreView { bin, phase: RestorePhase::ListBin, ..self },
                None => self.fail(),
            }
        }
    }

    /// The folders of the recycle bin, if they could be had.
    pub open spec fn bin_listed(self, names: Option<Seq<Seq<char>>>) -> RestoreView {
        match names {
            Some(names) => RestoreView {
                folders: Seq::new(
                    names.len(),
                    |i: int| self.bin.join(names[names.len() - 1 - i]),
                ),
                ..self
            }.next_folder(),
            None => self.fail(),
        }
    }

    /// What the folder holds, if it is a directory that could be read.
    pub open spec fn folder_listed(self, names: Option<Seq<Seq<char>>>) -> RestoreView {
        match names {
            Some(names) => RestoreView { indexes: index_names(names), ..self }.next_index(),
            None => self.next_folder(),
        }
    }

    /// What the index file holds, if it could be read: where it tells of the
    /// path, the content that belongs to it is looked for.
    pub open spec fn index_read(self, data: Option<Seq<u8>>) -> RestoreView {
        match data {
            Some(data) => match index_path(data) {
                Some(p) => if windows_key(p) == windows_key(self.path().written()) {
                    RestoreView { phase: RestorePhase::CheckContent, ..self }
                } else {
                    self.next_index()
                },
                None => self.next_index(),
            },
            None => self.next_index(),
        }
    }

    /// It is known whether the content exists.
    pub open spec fn content_known(self, exists: bool) -> RestoreView {
        if exists {
            RestoreView { phase: RestorePhase::MoveBack, ..self }
        } else {
            self.next_index()
        }
    }

    /// The content is in its place, or it could not be moved.
    pub open spec fn move_tried(self, moved: bool) -> RestoreView {
        if moved {
            self.succeed()
        } else {
            self.next_index()
        }
    }

    /// It is known whether the path exists after all, as it does where a
    /// folder above it was restored.
    pub open spec fn presence_known_again(self, present: bool) -> RestoreView {
        if present {
            self.succeed()
        } else {
            self.fail()
        }
    }

    /// What holds of a restoration at all times: every path that was dealt
    /// with counts once, as restored or as failed, and those that failed are
    /// listed in their order.
    pub open spec fn sound(self) -> bool {
        &&& self.restored + self.failed.len() == self.at
        &&& self.at <= self.paths.len()
        &&& (self.phase == RestorePhase::Finished) == (self.at == self.paths.len())
        &&& is_part_of(self.failed, self.paths.take(self.at as int))
        &&& (self.phase == RestorePhase::CheckContent || self.phase == RestorePhase::MoveBack
            || self.phase == RestorePhase::ReadIndex) ==> is_index_name(self.index)
        &&& forall|i: int|
            0 <= i < self.indexes.len() ==> is_index_name(#[trigger] self.indexes[i])
    }
}

/// Every name that `index_names` keeps is one of an index file.
pub proof fn index_names_are_index_names(names: Seq<Seq<char>>)
    ensures
        forall|i: int|
            0 <= i < index_names(names).len() ==> is_index_name(#[trigger] index_names(names)[i]),
    decreases names.len(),
{
    if names.len() > 0 {
        index_names_are_index_names(names.drop_first());
        let rest = index_names(names.drop_first());
        let all = index_names(names);
        assert forall|i: int| 0 <= i < all.len() implies is_index_name(#[trigger] all[i]) by {
            if i < rest.len() {
                assert(all[i] == rest[i]);
            }
        }
    }
}

impl RestoreRun {
    /// Starts a restoration.
    pub fn start(paths: Vec<FsPath>) -> (r: RestoreRun)
        ensures
            r@.paths == path_views(paths@),
            r@.restored == 0,
            r@.failed.len() == 0,
            r@ == r@.begin(0),
            r@.sound(),
    {
        let phase = if paths.len() == 0 {
            RestorePhase::Finished
        } else {
            RestorePhase::CheckPresent
        };
        let r = RestoreRun {
            paths,
            at: 0,
            restored: 0,
            failed: Vec::new(),
            bin: FsPath::plain(PathPrefix::Bare, false, Vec::new()),
            folders: Vec::new(),
            folder: FsPath::plain(PathPrefix::Bare, false, Vec::new()),
            indexes: Vec::new(),
            index: String::new(),
            phase,
        };
        assert(r@.indexes.len() == 0);
        r
    }

    fn begin_next(&mut self)
        requires
            old(self).at < old(self).paths@.len(),
        ensures
            final(self)@ == old(self)@.begin(old(self)@.at + 1),
    {
        let n: usize = self.paths.len();
        self.at = self.at + 1;
        self.phase = if self.at >= n {
            RestorePhase::Finished
        } else {
            RestorePhase::CheckPresent
        };
    }

    fn succeed(&mut self)
        requires
            old(self).at < old(self).paths@.len(),
            old(self).restored <= old(self).at,
        ensures
            final(self)@ == old(self)@.succeed(),
    {
        let n: usize = self.paths.len();
        self.restored = self.restored + 1;
        self.begin_next();
    }

    fn fail(&mut self)
        requires
            old(self).at < old(self).paths@.len(),
        ensures
            final(self)@ == old(self)@.fail(),
    {
        let ghost before = self@.failed;
        let p = self.paths[self.at].copy();
        self.failed.push(p);
        assert(self@.failed =~= before.push(self@.path()));
        self.begin_next();
    }

    fn next_folder(&mut self)
        ensures
            final(self)@ == old(self)@.next_folder(),
    {
        let ghost before = self@.folders;
        match self.folders.pop() {
            None => {
                assert(self@.folders =~= before);
                self.phase = RestorePhase::CheckAgain;
            },
            Some(p) => {
                assert(self@.folders =~= before.drop_last());
                assert(before.last() == p@);
                self.folder = p;
                self.phase = RestorePhase::ListFolder;
            },
        }
    }

    fn next_index(&mut self)
        ensures
            final(self)@ == old(self)@.next_index(),
    {
        let ghost before = self@.indexes;
        match self.indexes.pop() {
            None => {
                assert(self@.indexes =~= before);
                self.next_folder();
            },
            Some(name) => {
                assert(self@.indexes =~= before.drop_last());
                assert(before.last() == name@);
                self.index = name;
                self.phase = RestorePhase::ReadIndex;
            },
        }
    }

    /// Goes on once it is known whether the path exists.
    pub fn on_presence(&mut self, present: bool)
        requires
            old(self)@.sound(),
            old(self).phase == RestorePhase::CheckPresent,
        ensures
            final(self)@ == old(self)@.presence_known(present),
            final(self)@.sound(),
    {
        if present {
            self.succeed();
        } else {
            match recycle_bin_of(&self.paths[self.at]) {
                Some(bin) => {
                    self.bin = bin;
                    self.phase = RestorePhase::ListBin;
                },
                None => {
                    self.fail();
                },
            }
        }
        proof {
            failures_are_paths(old(self)@, self@);
        }
    }

    /// Goes on with the folders of the recycle bin.
    pub fn on_bin_listed(&mut self, names: Option<&Vec<String>>)
        requires
            old(self)@.sound(),
            old(self).phase == RestorePhase::ListBin,
        ensures
            final(self)@ == old(self)@.bin_listed(
                match names {
                    Some(v) => Some(texts(v@)),
                    None => None,
                },
            ),
            final(self)@.sound(),
    {
        match names {
            Some(v) => {
                let ghost shown = texts(v@);
                let ghost all = Seq::new(
                    shown.len(),
                    |i: int| old(self)@.bin.join(shown[shown.len() - 1 - i]),
                );
                let n: usize = v.len();
                let mut folders: Vec<FsPath> = Vec::new();
                for i in 0..n
                    invariant
                        n == v@.len(),
                        shown == texts(v@),
                        all.len() == n,
                        self@ == old(self)@,
                        all == Seq::new(
                            shown.len(),
                            |i: int| old(self)@.bin.join(shown[shown.len() - 1 - i]),
                        ),
                        path_views(folders@) == all.take(i as int),
                {
                    let ghost before = path_views(folders@);
                    folders.push(self.bin.join(v[n - 1 - i].as_str()));
                    assert(path_views(folders@) =~= before.push(all[i as int]));
                    assert(path_views(folders@) =~= all.take(i + 1));
                }
                assert(all.take(n as int) =~= all);
                self.folders = folders;
                self.next_folder();
            },
            None => {
                self.fail();
            },
        }
        proof {
            failures_are_paths(old(self)@, self@);
        }
    }

    /// Goes on with the names in the folder.
    pub fn on_folder_listed(&mut self, names: Option<&Vec<String>>)
        requires
            old(self)@.sound(),
            old(self).phase == RestorePhase::ListFolder,
        ensures
            final(self)@ == old(self)@.folder_listed(
                match names {
                    Some(v) => Some(texts(v@)),
                    None => None,
                },
            ),
            final(self)@.sound(),
    {
        match names {
            Some(v) => {
                let ghost shown = texts(v@);
                let mut indexes: Vec<String> = Vec::new();
                let mut i: usize = v.len();
                assert(shown.skip(i as int) =~= Seq::empty());
                assert(texts(indexes@) =~= index_names(shown.skip(i as int)));
                while i > 0
                    invariant
                        i <= v@.len(),
                        shown == texts(v@),
                        texts(indexes@) == index_names(shown.skip(i as int)),
                    decreases i,
                {
                    i = i - 1;
                    let ghost rest = shown.skip(i as int);
                    assert(rest[0] == v@[i as int]@);
                    assert(rest.drop_first() =~= shown.skip(i + 1));
                    let ghost before = texts(indexes@);
                    if has_prefix(v[i].as_str(), "$I") {
                        indexes.push(copy_text(v[i].as_str()));
                        assert(texts(indexes@) =~= before.push(v@[i as int]@));
                    }
                }
                assert(shown.skip(0) =~= shown);
                proof {
                    index_names_are_index_names(shown);
                }
                self.indexes = indexes;
                self.next_index();
            },
            None => {
                self.next_folder();
            },
        }
    }

    /// Goes on with the contents of the index file.
    pub fn on_index_read(&mut self, data: Option<&[u8]>)
        requires
            old(self)@.sound(),
            old(self).phase == RestorePhase::ReadIndex,
            data matches Some(d) ==> has_sound_length(d@),
        ensures
            final(self)@ == old(self)@.index_read(
                match data {
                    Some(d) => Some(d@),
                    None => None,
                },
            ),
            final(self)@.sound(),
    {
        match data {
            Some(d) => {
                match parse_index(d) {
                    Some(p) => {
                        let wanted = self.paths[self.at].to_text();
                        if windows_path_eq(p.as_str(), wanted.as_str()) {
                            self.phase = RestorePhase::CheckContent;
                        } else {
                            self.next_index();
                        }
                    },
                    None => {
                        self.next_index();
                    },
                }
            },
            None => {
                self.next_index();
            },
        }
    }

    /// The path of the content that belongs to the index file.
    pub fn content_path(&self) -> (r: FsPath)
        requires
            self@.sound(),
            self.phase == RestorePhase::CheckContent || self.phase == RestorePhase::MoveBack,
        ensures
            r@ == self@.folder.join(content_name(self@.index)),
    {
        let name = content_name_of(self.index.as_str());
        self.folder.join(name.as_str())
    }

    /// Goes on once it is known whether the content exists.
    pub fn on_content(&mut self, exists: bool)
        requires
            old(self)@.sound(),
            old(self).phase == RestorePhase::CheckContent,
        ensures
            final(self)@ == old(self)@.content_known(exists),
            final(self)@.sound(),
    {
        if exists {
            self.phase = RestorePhase::MoveBack;
        } else {
            self.next_index();
        }
    }

    /// Goes on once the content was moved to the path or could not be.
    pub fn on_move_tried(&mut self, moved: bool)
        requires
            old(self)@.sound(),
            old(self).phase == RestorePhase::MoveBack,
        ensures
            final(self)@ == old(self)@.move_tried(moved),
            final(self)@.sound(),
    {
        if moved {
            self.succeed();
        } else {
            self.next_index();
        }
        proof {
            failures_are_paths(old(self)@, self@);
        }
    }

    /// Goes on once it is known whether the path exists after all.
    pub fn on_presence_again(&mut self, present: bool)
        requires
            old(self)@.sound(),
            old(self).phase == RestorePhase::CheckAgain,
        ensures
            final(self)@ == old(self)@.presence_known_again(present),
            final(self)@.sound(),
    {
        if present {
            self.succeed();
        } else {
            self.fail();
        }
        proof {
            failures_are_paths(old(self)@, self@);
        }
    }
}

/// The paths that failed stay in their order.
proof fn failures_are_paths(before: RestoreView, after: RestoreView)
    requires
        before.sound(),
        before.at < before.paths.len(),
        after.paths == before.paths,
        after.failed == before.failed || after.failed == before.failed.push(before.path()),
    ensures
        is_part_of(after.failed, after.paths.take(before.at as int + 1)),
{
    let whole = before.paths.take(before.at as int + 1);
    assert(whole.drop_last() =~= before.paths.take(before.at as int));
    assert(before.failed.push(before.path()).drop_last() =~= before.failed);
}

/// What is left of a list holds only what the list holds.
pub proof fn a_part_holds_nothing_else(part: Seq<PathView>, whole: Seq<PathView>, i: int)
    requires
        is_part_of(part, whole),
        0 <= i < part.len(),
    ensures
        whole.contains(part[i]),
    decreases whole.len(),
{
    let rest = whole.drop_last();
    if part.last() == whole.last() && is_part_of(part.drop_last(), rest) {
        if i == part.len() - 1 {
            assert(whole[whole.len() - 1] == part[i]);
        } else {
            a_part_holds_nothing_else(part.drop_last(), rest, i);
            let k = rest.index_of(part[i]);
            assert(whole[k] == part[i]);
        }
    } else {
        a_part_holds_nothing_else(part, rest, i);
        let k = rest.index_of(part[i]);
        assert(whole[k] == part[i]);
    }
}

/// When a restoration is over, every path was restored or is listed as
/// failed, in the order of the paths.
pub proof fn restoration_accounts_for_every_path(r: RestoreView)
    requires
        r.sound(),
        r.phase == RestorePhase::Finished,
    ensures
        r.restored + r.failed.len() == r.paths.len(),
        r.restored < r.paths.len() <==> r.failed.len() > 0,
        is_part_of(r.failed, r.paths),
{
    assert(r.paths.take(r.at as int) =~= r.paths);
}

/// The content that belongs to an index file is called like it, with an `R` in place of the `I`;
/// a name that begins with neither a dollar sign nor an `I` behind it is no index file.
pub proof fn content_is_called_like_its_index(rest: Seq<char>, name: Seq<char>)
    ensures
        is_index_name(seq!['$', 'I'] + rest),
        content_name(seq!['$', 'I'] + rest) == seq!['$', 'R'] + rest,
        is_index_name(name) <==> name.len() >= 2 && name[0] == '$' && name[1] == 'I',
{
    reveal_strlit("$I");
    reveal_strlit("$R");
    let index = seq!['$', 'I'] + rest;
    assert(index.subrange(0, 2) =~= "$I"@);
    assert(index.skip(2) =~= rest);
    assert("$R"@ =~= seq!['$', 'R']);
    if name.len() >= 2 && name[0] == '$' && name[1] == 'I' {
        assert(name.subrange(0, 2) =~= "$I"@);
    }
    if is_index_name(name) {
        let s = name.subrange(0, 2);
        assert(s[0] == '$' && s[1] == 'I');
    }
}

/// What was deleted from a drive lies in the recycle bin at the root of that drive.
pub proof fn the_bin_lies_at_the_root_of_the_drive(p: PathView)
    requires
        p.prefix is Disk || p.prefix is VerbatimDisk || p.prefix is Other,
        p.rooted,
    ensures
        bin_of(p) matches Some(b) && b.prefix == p.prefix && b.rooted && b.names == seq![
            "$Recycle.Bin"@,
        ],
{
    let b = bin_of(p)->0;
    assert(b.names =~= seq!["$Recycle.Bin"@]);
}

/// The index files of a folder come up in the order in which they were listed, and nothing else
/// does.
pub proof fn index_files_come_up_in_order(name: Seq<char>, rest: Seq<Seq<char>>)
    ensures
        index_names(seq![name] + rest) == if name.len() >= 2 && name[0] == '$' && name[1] == 'I' {
            index_names(rest).push(name)
        } else {
            index_names(rest)
        },
        index_names(Seq::empty()).len() == 0,
{
    content_is_called_like_its_index(Seq::empty(), name);
    assert((seq![name] + rest).drop_first() =~= rest);
}

/// The path in an index file of the second layout is the one that was written there: its length,
/// the text and a zero. In the first layout the text ends at the first zero, whatever follows.
pub proof fn an_index_file_tells_its_path(data: Seq<u8>, path: Seq<char>, rest: Seq<u16>)
    requires
        !path.contains('\0'),
        data.len() >= 28,
    ensures
        !(le32_at(data, 0) == 1 && le32_at(data, 4) == 0) && le32_at(data, 24)
            == crate::wide::encode_utf16(path).len() + 1 && data.skip(28)
            == crate::wide::unit_bytes(crate::wide::encode_utf16(path).push(0u16))
            ==> index_path(data) == Some(path),
        le32_at(data, 0) == 1 && le32_at(data, 4) == 0 && data.skip(24) == crate::wide::unit_bytes(
            crate::wide::encode_utf16(path).push(0u16) + rest,
        ) ==> index_path(data) == Some(path),
{
    let e = crate::wide::encode_utf16(path);
    let w = e.push(0u16);
    crate::wide::units_read_back_from_bytes(w);
    crate::wide::units_read_back_from_bytes(w + rest);
    crate::wide::utf16_round_trip(path);
    if is_first_layout(data) && data.skip(24) == crate::wide::unit_bytes(w + rest) {
        crate::wide::encoding_has_no_zero(path);
        let all = w + rest;
        crate::wide::zero_position_holds(all);
        assert(all[e.len() as int] == 0);
        assert forall|k: int| 0 <= k < e.len() implies all[k] != 0 by {
            assert(all[k] == e[k]);
            assert(e.contains(e[k]));
        }
        assert(zero_position(all) == e.len());
        assert(before_zero(all) =~= e);
    }
    if !is_first_layout(data) && le32_at(data, 24) == e.len() + 1 && data.skip(28)
        == crate::wide::unit_bytes(w) {
        let n = le32_at(data, 24);
        assert(crate::wide::unit_bytes(w).len() == 2 * n);
        assert(data.len() == 28 + 2 * n);
        assert(data.subrange(28, 28 + 2 * n) =~= data.skip(28));
        let z = path.push('\0');
        assert(z.drop_last() =~= path);
        assert(crate::wide::units('\0') =~= seq![0u16]);
        assert(crate::wide::encode_utf16(z) =~= w);
        crate::wide::utf16_round_trip(z);
        assert(without_zeros(z) == without_zeros(path));
        if path.len() > 0 {
            assert(path.contains(path[path.len() - 1]));
        }
        assert(without_zeros(path) == path);
    }
}

/// A path that is there counts as restored and nothing is searched for it; so does one whose
/// content was moved back. A path that is found nowhere is listed as failed. Either way the next
/// path follows.
pub proof fn every_path_is_settled_in_turn(r: RestoreView)
    requires
        r.at < r.paths.len(),
    ensures
        r.presence_known(true).restored == r.restored + 1,
        r.presence_known(true).failed == r.failed,
        r.presence_known(true).at == r.at + 1,
        r.move_tried(true) == r.presence_known(true),
        r.presence_known_again(true) == r.presence_known(true),
        r.presence_known_again(false).restored == r.restored,
        r.presence_known_again(false).failed == r.failed.push(r.paths[r.at as int]),
        r.presence_known_again(false).at == r.at + 1,
        r.bin_listed(None) == r.presence_known_again(false),
        r.presence_known(true).phase == if r.at + 1 < r.paths.len() {
            RestorePhase::CheckPresent
        } else {
            RestorePhase::Finished
        },
{
}

/// A path that is not there is searched for in the bin of its drive: folder by folder and index
/// file by index file, in the order in which they were listed.
pub proof fn the_search_goes_in_order(r: RestoreView, first: Seq<char>, rest: Seq<Seq<char>>)
    requires
        r.at < r.paths.len(),
    ensures
        r.paths[r.at as int].prefix is Disk && r.paths[r.at as int].rooted ==> r.presence_known(
            false,
        ).phase == RestorePhase::ListBin && r.presence_known(false).bin.names == seq![
            "$Recycle.Bin"@,
        ] && r.presence_known(false).bin.prefix == r.paths[r.at as int].prefix,
        r.bin_listed(Some(seq![first] + rest)).phase == RestorePhase::ListFolder,
        r.bin_listed(Some(seq![first] + rest)).folder == r.bin.join(first),
        r.bin_listed(Some(seq![first] + rest)).folders.len() == rest.len(),
        r.bin_listed(Some(seq![first] + rest)).next_folder() == (if rest.len() > 0 {
            RestoreView {
                folder: r.bin.join(rest[0]),
                phase: RestorePhase::ListFolder,
                folders: r.bin_listed(Some(seq![first] + rest)).folders.drop_last(),
                ..r
            }
        } else {
            RestoreView {
                folder: r.bin.join(first),
                folders: Seq::empty(),
                phase: RestorePhase::CheckAgain,
                ..r
            }
        }),
        first.len() >= 2 && first[0] == '$' && first[1] == 'I' ==> r.folder_listed(
            Some(seq![first] + rest),
        ).index == first && r.folder_listed(Some(seq![first] + rest)).phase
            == RestorePhase::ReadIndex,
{
    let names = seq![first] + rest;
    let p = r.paths[r.at as int];
    if p.prefix is Disk && p.rooted {
        the_bin_lies_at_the_root_of_the_drive(p);
    }
    let folders = Seq::new(names.len(), |i: int| r.bin.join(names[names.len() - 1 - i]));
    let b = r.bin_listed(Some(names));
    assert(folders.last() == r.bin.join(first));
    assert(b.folders =~= folders.drop_last());
    if rest.len() > 0 {
        assert(b.folders.last() == folders[rest.len() - 1]);
        assert(names[1] == rest[0]);
    } else {
        assert(b.folders =~= Seq::empty());
    }
    index_files_come_up_in_order(first, rest);
    assert(index_names(rest).push(first).drop_last() =~= index_names(rest));
}

/// An index file that tells of the path leads to the content beside it, and that to its place;
/// one that tells of another path, or of none, is passed over, and so is content that is missing
/// or cannot be moved.
pub proof fn only_the_matching_index_is_followed(r: RestoreView, data: Seq<u8>)
    requires
        r.at < r.paths.len(),
    ensures
        index_path(data) == Some(r.paths[r.at as int].written()) ==> r.index_read(Some(data))
            == (RestoreView { phase: RestorePhase::CheckContent, ..r }),
        index_path(data) is None ==> r.index_read(Some(data)) == r.next_index(),
        (index_path(data) matches Some(p) && windows_key(p) != windows_key(
            r.paths[r.at as int].written(),
        )) ==> r.index_read(Some(data)) == r.next_index(),
        r.index_read(None) == r.next_index(),
        r.content_known(true) == (RestoreView { phase: RestorePhase::MoveBack, ..r }),
        r.content_known(false) == r.next_index(),
        r.move_tried(false) == r.next_index(),
        r.folder_listed(None) == r.next_folder(),
{
}

/// An index file can be read whatever its length, as long as the number that it gives for the
/// length of the path is not out of all bounds.
pub proof fn index_files_can_be_read(data: Seq<u8>)
    ensures
        data.len() < 28 ==> has_sound_length(data) && index_path(data) is None,
        le32_at(data, 24) < 0x8000_0000 ==> has_sound_length(data),
        le32_at(data, 0) == 1 && le32_at(data, 4) == 0 ==> has_sound_length(data),
        data.len() >= 28 && !(le32_at(data, 0) == 1 && le32_at(data, 4) == 0) && data.len() < 28 + 2
            * le32_at(data, 24) ==> index_path(data) is None,
{
}

/// What is nothing but a drive, or less, has no recycle bin; below a root without a drive the bin
/// lies in the first folder.
pub proof fn a_lone_drive_has_no_bin(p: PathView)
    ensures
        !p.rooted && p.names.len() == 0 ==> bin_of(p) is None,
        p.prefix is Unix && p.rooted && p.names.len() == 0 ==> bin_of(p) is None,
        p.prefix is Unix && p.rooted && p.names.len() > 0 ==> (bin_of(p) matches Some(b) && b.names
            == seq![p.names[0], "$Recycle.Bin"@]),
{
    if p.prefix is Unix && p.rooted && p.names.len() > 0 {
        let b = bin_of(p)->0;
        assert(b.names =~= seq![p.names[0], "$Recycle.Bin"@]);
    }
}

} // verus!
