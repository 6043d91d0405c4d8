//! File-system paths as values: a prefix, a root and a list of names.
use crate::text::{copy_text, copy_texts, find_last, text_between, text_eq, texts};
use crate::text::{chars_of, last_position};
use vstd::prelude::*;
use vstd::string::StringExecFns;

verus! {

// ---------------------------------------------------------------------------
// Paths
// ---------------------------------------------------------------------------

/// What stands before the root of a path.
pub enum PathPrefix {
    /// Nothing, where paths are written with backslashes.
    Bare,
    /// Nothing, where paths are written with slashes.
    Unix,
    /// A drive letter.
    Disk(u8),
    /// A drive letter, behind the mark of a path that is taken as it is written.
    VerbatimDisk(u8),
    /// Any other prefix, such as a server and its share, written with backslashes.
    Other(String),
}

/// How a path is written around its names.
pub struct Spelling {
    /// The prefix.
    pub lead: String,
    /// What marks the root.
    pub root: String,
    /// What stands before each name.
    pub gaps: Vec<String>,
    /// What stands behind the last name.
    pub tail: String,
}

/// A path: its prefix, whether it starts at the root of that prefix, and the
/// names on the way down.
pub struct FsPath {
    pub prefix: PathPrefix,
    pub rooted: bool,
    pub names: Vec<String>,
    /// How it is written, where that is not the usual way: with one separator
    /// for the root, one between two names, and none at the end.
    pub spelling: Option<Spelling>,
}

/// The view of a `PathPrefix`.
pub enum PrefixView {
    Bare,
    Unix,
    Disk(u8),
    VerbatimDisk(u8),
    Other(Seq<char>),
}

/// The view of a `Spelling`.
#[verifier::ext_equal]
pub struct SpellingView {
    pub lead: Seq<char>,
    pub root: Seq<char>,
    pub gaps: Seq<Seq<char>>,
    pub tail: Seq<char>,
}

/// The view of a `FsPath`.
#[verifier::ext_equal]
pub struct PathView {
    pub prefix: PrefixView,
    pub rooted: bool,
    pub names: Seq<Seq<char>>,
    pub spelling: Option<SpellingView>,
}

/// Where a path leads, however it is written. Two paths are the same where
/// they lead to the same place.
#[verifier::ext_equal]
pub struct PlaceView {
    pub prefix: PrefixView,
    pub rooted: bool,
    pub names: Seq<Seq<char>>,
}

impl View for PathPrefix {
    type V = PrefixView;

    open spec fn view(&self) -> PrefixView {
        match self {
            PathPrefix::Bare => PrefixView::Bare,
            PathPrefix::Unix => PrefixView::Unix,
            PathPrefix::Disk(b) => PrefixView::Disk(*b),
            PathPrefix::VerbatimDisk(b) => PrefixView::VerbatimDisk(*b),
            PathPrefix::Other(s) => PrefixView::Other(s@),
        }
    }
}

impl View for Spelling {
    type V = SpellingView;

    open spec fn view(&self) -> SpellingView {
        SpellingView {
            lead: self.lead@,
            root: self.root@,
            gaps: texts(self.gaps@),
            tail: self.tail@,
        }
    }
}

impl View for FsPath {
    type V = PathView;

    open spec fn view(&self) -> PathView {
        PathView {
            prefix: self.prefix@,
            rooted: self.rooted,
            names: texts(self.names@),
            spelling: match self.spelling {
                Some(s) => Some(s@),
                None => None,
            },
        }
    }
}

/// The places of a list of paths.
pub open spec fn places(v: Seq<PathView>) -> Seq<PlaceView> {
    Seq::new(v.len(), |i: int| v[i].place())
}

/// The views of a list of paths.
pub open spec fn path_views(v: Seq<FsPath>) -> Seq<PathView> {
    Seq::new(v.len(), |i: int| v[i]@)
}

/// Whether `name` names an entry of the directory before it, which `.` and
/// `..` do not.
pub open spec fn is_entry_name(name: Seq<char>) -> bool {
    name != seq!['.'] && name != seq!['.', '.']
}

impl PrefixView {
    /// Whether nothing stands before the root.
    pub open spec fn is_empty(self) -> bool {
        self is Bare || self is Unix
    }

    /// The prefix as it is usually written.
    pub open spec fn written(self) -> Seq<char> {
        match self {
            PrefixView::Bare | PrefixView::Unix => Seq::empty(),
            PrefixView::Disk(b) => seq![b as char, ':'],
            PrefixView::VerbatimDisk(b) => seq!['\\', '\\', '?', '\\', b as char, ':'],
            PrefixView::Other(s) => s,
        }
    }

    /// What usually stands between the names of a path.
    pub open spec fn separator(self) -> char {
        if self is Unix {
            '/'
        } else {
            '\\'
        }
    }

    /// Whether `c` separates names.
    pub open spec fn separates(self, c: char) -> bool {
        c == '/' || c == self.separator()
    }
}

impl PlaceView {
    /// Whether `base` is this place or one of the directories above it.
    pub open spec fn is_within(self, base: PlaceView) -> bool {
        self.prefix == base.prefix && self.rooted == base.rooted && base.names.len()
            <= self.names.len() && self.names.take(base.names.len() as int) == base.names
    }
}

impl PathView {
    /// Where the path leads.
    pub open spec fn place(self) -> PlaceView {
        PlaceView { prefix: self.prefix, rooted: self.rooted, names: self.names }
    }

    /// Whether two paths lead to the same place.
    pub open spec fn is_same(self, other: PathView) -> bool {
        self.place() == other.place()
    }

    /// The prefix as it is written.
    pub open spec fn lead(self) -> Seq<char> {
        match self.spelling {
            Some(s) => s.lead,
            None => self.prefix.written(),
        }
    }

    /// What stands before the name `i`.
    pub open spec fn gap(self, i: int) -> Seq<char> {
        match self.spelling {
            Some(s) if i < s.gaps.len() => s.gaps[i],
            _ => if i == 0 {
                Seq::empty()
            } else {
                seq![self.prefix.separator()]
            },
        }
    }

    /// What marks the root.
    pub open spec fn root_mark(self) -> Seq<char> {
        match self.spelling {
            Some(s) => s.root,
            None => if self.rooted {
                seq![self.prefix.separator()]
            } else {
                Seq::empty()
            },
        }
    }

    /// What stands behind the last name.
    pub open spec fn tail(self) -> Seq<char> {
        match self.spelling {
            Some(s) => s.tail,
            None => Seq::empty(),
        }
    }

    /// The first `n` names as they are written.
    pub open spec fn written_names(self, n: nat) -> Seq<char>
        decreases n,
    {
        if n == 0 {
            Seq::empty()
        } else {
            self.written_names((n - 1) as nat) + self.gap(n - 1) + self.names[n - 1]
        }
    }

    /// The path as it is written, up to its last name.
    pub open spec fn body(self) -> Seq<char> {
        self.lead() + self.root_mark() + self.written_names(self.names.len())
    }

    /// The path as it is written.
    pub open spec fn written(self) -> Seq<char> {
        self.body() + self.tail()
    }

    /// The path written in the usual way.
    pub open spec fn usual(self) -> PathView {
        PathView { spelling: None, ..self }
    }

    /// The path of the first `n` names.
    pub open spec fn above(self, n: nat) -> PathView {
        PathView {
            names: self.names.take(n as int),
            spelling: match self.spelling {
                Some(s) => Some(
                    SpellingView {
                        lead: s.lead,
                        root: s.root,
                        gaps: Seq::new(n, |i: int| self.gap(i)),
                        tail: Seq::empty(),
                    },
                ),
                None => None,
            },
            ..self
        }
    }

    /// The path without its last name.
    pub open spec fn parent(self) -> Option<PathView> {
        if self.names.len() > 0 {
            Some(self.above((self.names.len() - 1) as nat))
        } else {
            None
        }
    }

    /// Whether `base` is the path without its last name.
    pub open spec fn lies_in(self, base: PathView) -> bool {
        self.parent() matches Some(p) && p.is_same(base)
    }

    /// What stands between this path and a name that is added: a separator,
    /// unless the path ends with one or is nothing but a drive.
    pub open spec fn next_gap(self) -> Seq<char> {
        let tail = self.tail();
        let separator = seq![self.prefix.separator()];
        if tail.len() > 0 {
            if self.prefix.separates(tail.last()) {
                tail
            } else {
                tail + separator
            }
        } else if self.names.len() > 0 || (self.rooted && self.root_mark().len() == 0) {
            separator
        } else {
            Seq::empty()
        }
    }

    /// The last name, where it names an entry.
    pub open spec fn file_name(self) -> Option<Seq<char>> {
        if self.names.len() > 0 && is_entry_name(self.names.last()) {
            Some(self.names.last())
        } else {
            None
        }
    }

    /// The entry `name` in this path.
    pub open spec fn join(self, name: Seq<char>) -> PathView {
        PathView {
            names: self.names.push(name),
            spelling: match self.spelling {
                Some(s) => Some(
                    SpellingView {
                        lead: s.lead,
                        root: s.root,
                        gaps: Seq::new(self.names.len(), |i: int| self.gap(i)).push(
                            self.next_gap(),
                        ),
                        tail: Seq::empty(),
                    },
                ),
                None => None,
            },
            ..self
        }
    }

    /// Whether `base` is this path or one of the directories above it.
    pub open spec fn starts_with(self, base: PathView) -> bool {
        self.prefix == base.prefix && self.rooted == base.rooted && base.names.len()
            <= self.names.len() && self.names.take(base.names.len() as int) == base.names
    }

    /// The number of components: the prefix, the root and the names.
    pub open spec fn component_count(self) -> nat {
        (if self.prefix.is_empty() {
            0nat
        } else {
            1nat
        }) + (if self.rooted {
            1nat
        } else {
            0nat
        }) + self.names.len()
    }
}

/// The part of a name before its extension: up to the last dot, unless that
/// is the first character or there is none.
pub open spec fn stem_of(name: Seq<char>) -> Seq<char> {
    match last_position(name, '.') {
        Some(i) => if i == 0 {
            name
        } else {
            name.take(i)
        },
        None => name,
    }
}

/// What follows the last dot of a name, unless that is its first character.
pub open spec fn extension_of(name: Seq<char>) -> Option<Seq<char>> {
    match last_position(name, '.') {
        Some(i) => if i == 0 {
            None
        } else {
            Some(name.skip(i + 1))
        },
        None => None,
    }
}

/// The extension of a name with its dot, or nothing.
pub open spec fn dotted_extension(name: Seq<char>) -> Seq<char> {
    match extension_of(name) {
        Some(e) => seq!['.'] + e,
        None => Seq::empty(),
    }
}

/// A name is its stem, a dot and its extension, or its stem alone.
pub proof fn name_splits(name: Seq<char>)
    ensures
        match extension_of(name) {
            Some(e) => name == stem_of(name).push('.') + e,
            None => name == stem_of(name),
        },
{
    crate::text::last_position_holds(name, '.');
    match last_position(name, '.') {
        Some(i) => {
            if i != 0 {
                assert(name =~= name.take(i).push('.') + name.skip(i + 1));
            }
        },
        None => {},
    }
}

/// The part of `name` before its extension.
pub fn file_stem(name: &str) -> (r: String)
    ensures
        r@ == stem_of(name@),
{
    let v = chars_of(name);
    match find_last(&v, '.') {
        Some(i) => {
            if i == 0 {
                copy_text(name)
            } else {
                let r = text_between(&v, 0, i);
                assert(name@.subrange(0, i as int) =~= name@.take(i as int));
                r
            }
        },
        None => copy_text(name),
    }
}

/// The extension of `name`.
pub fn extension(name: &str) -> (r: Option<String>)
    ensures
        match r {
            Some(e) => extension_of(name@) == Some(e@),
            None => extension_of(name@) is None,
        },
{
    let v = chars_of(name);
    match find_last(&v, '.') {
        Some(i) => {
            if i == 0 {
                None
            } else {
                let n: usize = v.len();
                let e = text_between(&v, i + 1, n);
                assert(name@.subrange(i + 1, name@.len() as int) =~= name@.skip(i + 1));
                Some(e)
            }
        },
        None => None,
    }
}

/// Whether `name` names an entry of the directory before it.
pub fn names_entry(name: &str) -> (r: bool)
    ensures
        r == is_entry_name(name@),
{
    let v = chars_of(name);
    if v.len() == 1 && v[0] == '.' {
        assert(v@ =~= seq!['.']);
        return false;
    }
    if v.len() == 2 && v[0] == '.' && v[1] == '.' {
        assert(v@ =~= seq!['.', '.']);
        return false;
    }
    true
}

impl PathPrefix {
    /// A fresh copy.
    pub fn copy(&self) -> (r: PathPrefix)
        ensures
            r@ == self@,
    {
        match self {
            PathPrefix::Bare => PathPrefix::Bare,
            PathPrefix::Unix => PathPrefix::Unix,
            PathPrefix::Disk(b) => PathPrefix::Disk(*b),
            PathPrefix::VerbatimDisk(b) => PathPrefix::VerbatimDisk(*b),
            PathPrefix::Other(s) => PathPrefix::Other(copy_text(s.as_str())),
        }
    }

    /// Whether two prefixes are the same.
    pub fn same(&self, other: &PathPrefix) -> (r: bool)
        ensures
            r == (self@ == other@),
    {
        match (self, other) {
            (PathPrefix::Bare, PathPrefix::Bare) => true,
            (PathPrefix::Unix, PathPrefix::Unix) => true,
            (PathPrefix::Disk(a), PathPrefix::Disk(b)) => *a == *b,
            (PathPrefix::VerbatimDisk(a), PathPrefix::VerbatimDisk(b)) => *a == *b,
            (PathPrefix::Other(a), PathPrefix::Other(b)) => text_eq(a.as_str(), b.as_str()),
            _ => false,
        }
    }

    /// Whether nothing stands before the root.
    pub fn is_empty(&self) -> (r: bool)
        ensures
            r == self@.is_empty(),
    {
        match self {
            PathPrefix::Bare | PathPrefix::Unix => true,
            _ => false,
        }
    }
}

impl Spelling {
    /// A fresh copy.
    pub fn copy(&self) -> (r: Spelling)
        ensures
            r@ == self@,
    {
        Spelling {
            lead: copy_text(self.lead.as_str()),
            root: copy_text(self.root.as_str()),
            gaps: copy_texts(&self.gaps),
            tail: copy_text(self.tail.as_str()),
        }
    }
}

/// The text of one character.
fn letter(c: char) -> (r: String)
    ensures
        r@ == seq![c],
{
    let mut r = String::new();
    r.push(c);
    assert(r@ =~= seq![c]);
    r
}

/// No text.
fn nothing() -> (r: String)
    ensures
        r@ == Seq::<char>::empty(),
{
    let r = String::new();
    assert(r@ =~= Seq::empty());
    r
}

impl FsPath {
    /// A path that is written in the usual way.
    pub fn plain(prefix: PathPrefix, rooted: bool, names: Vec<String>) -> (r: FsPath)
        ensures
            r@ == (PathView {
                prefix: prefix@,
                rooted,
                names: texts(names@),
                spelling: None,
            }),
    {
        FsPath { prefix, rooted, names, spelling: None }
    }

    /// A fresh copy.
    pub fn copy(&self) -> (r: FsPath)
        ensures
            r@ == self@,
    {
        FsPath {
            prefix: self.prefix.copy(),
            rooted: self.rooted,
            names: copy_texts(&self.names),
            spelling: match &self.spelling {
                Some(s) => Some(s.copy()),
                None => None,
            },
        }
    }

    /// The path written in the usual way.
    pub fn usual(&self) -> (r: FsPath)
        ensures
            r@ == self@.usual(),
    {
        FsPath::plain(self.prefix.copy(), self.rooted, copy_texts(&self.names))
    }

    /// Whether two paths are the same, however they are written.
    pub fn same(&self, other: &FsPath) -> (r: bool)
        ensures
            r == self@.is_same(other@),
    {
        if self.names.len() != other.names.len() {
            assert(self@.names.len() != other@.names.len());
            return false;
        }
        let r = self.starts_with(other);
        assert(self@.names.take(other@.names.len() as int) =~= self@.names);
        r
    }

    /// Whether `base` is this path or one of the directories above it.
    pub fn starts_with(&self, base: &FsPath) -> (r: bool)
        ensures
            r == self@.starts_with(base@),
    {
        if !self.prefix.same(&base.prefix) || self.rooted != base.rooted || base.names.len()
            > self.names.len() {
            return false;
        }
        for i in 0..base.names.len()
            invariant
                base.names@.len() <= self.names@.len(),
                forall|k: int| 0 <= k < i ==> self@.names[k] == base@.names[k],
        {
            if !text_eq(self.names[i].as_str(), base.names[i].as_str()) {
                assert(self@.names.take(base@.names.len() as int)[i as int] != base@.names[i as int]);
                return false;
            }
        }
        assert(self@.names.take(base@.names.len() as int) =~= base@.names);
        true
    }

    /// The prefix as it is written.
    pub fn lead(&self) -> (r: String)
        ensures
            r@ == self@.lead(),
    {
        match &self.spelling {
            Some(s) => copy_text(s.lead.as_str()),
            None => self.prefix.to_text(),
        }
    }

    /// What stands before the name `i`.
    fn gap(&self, i: usize) -> (r: String)
        ensures
            r@ == self@.gap(i as int),
    {
        match &self.spelling {
            Some(s) => {
                if i < s.gaps.len() {
                    return copy_text(s.gaps[i].as_str());
                }
            },
            None => {},
        }
        if i == 0 {
            nothing()
        } else {
            letter(self.prefix.separator())
        }
    }

    /// What stands before each of the first `n` names.
    fn first_gaps(&self, n: usize) -> (r: Vec<String>)
        ensures
            texts(r@) == Seq::new(n as nat, |i: int| self@.gap(i)),
    {
        let mut r: Vec<String> = Vec::new();
        for i in 0..n
            invariant
                r@.len() == i,
                forall|k: int| 0 <= k < i ==> (#[trigger] r@[k])@ == self@.gap(k),
        {
            r.push(self.gap(i));
        }
        assert(texts(r@) =~= Seq::new(n as nat, |i: int| self@.gap(i)));
        r
    }

    /// What marks the root.
    fn root_mark(&self) -> (r: String)
        ensures
            r@ == self@.root_mark(),
    {
        match &self.spelling {
            Some(s) => copy_text(s.root.as_str()),
            None => if self.rooted {
                letter(self.prefix.separator())
            } else {
                nothing()
            },
        }
    }

    /// What stands behind the last name.
    fn tail(&self) -> (r: String)
        ensures
            r@ == self@.tail(),
    {
        match &self.spelling {
            Some(s) => copy_text(s.tail.as_str()),
            None => nothing(),
        }
    }

    /// The path without its last name.
    pub fn parent(&self) -> (r: Option<FsPath>)
        ensures
            match r {
                Some(p) => self@.parent() == Some(p@),
                None => self@.parent() is None,
            },
    {
        if self.names.len() == 0 {
            return None;
        }
        Some(self.above(self.names.len() - 1))
    }

    /// The path of the first `n` names.
    pub fn above(&self, n: usize) -> (r: FsPath)
        requires
            n <= self@.names.len(),
        ensures
            r@ == self@.above(n as nat),
            n + 1 == self@.names.len() ==> self@.parent() == Some(r@),
    {
        let mut names: Vec<String> = Vec::new();
        for i in 0..n
            invariant
                n <= self.names@.len(),
                texts(names@) == texts(self.names@).take(i as int),
        {
            let ghost before = texts(names@);
            names.push(copy_text(self.names[i].as_str()));
            assert(texts(names@) =~= before.push(self.names@[i as int]@));
            assert(texts(names@) =~= texts(self.names@).take(i + 1));
        }
        let spelling = match &self.spelling {
            Some(s) => Some(
                Spelling {
                    lead: copy_text(s.lead.as_str()),
                    root: copy_text(s.root.as_str()),
                    gaps: self.first_gaps(n),
                    tail: nothing(),
                },
            ),
            None => None,
        };
        FsPath { prefix: self.prefix.copy(), rooted: self.rooted, names, spelling }
    }

    /// The last name, where it names an entry.
    pub fn file_name(&self) -> (r: Option<String>)
        ensures
            match r {
                Some(n) => self@.file_name() == Some(n@),
                None => self@.file_name() is None,
            },
    {
        if self.names.len() == 0 {
            return None;
        }
        let last = &self.names[self.names.len() - 1];
        assert(self@.names.last() == last@);
        if names_entry(last.as_str()) {
            Some(copy_text(last.as_str()))
        } else {
            None
        }
    }

    /// What stands between this path and a name that is added.
    pub fn next_gap(&self) -> (r: String)
        ensures
            r@ == self@.next_gap(),
    {
        let separator = self.prefix.separator();
        let mut tail = self.tail();
        let v = chars_of(tail.as_str());
        if v.len() > 0 {
            let last = v[v.len() - 1];
            if last != '/' && last != separator {
                tail.push(separator);
                assert(tail@ =~= self@.tail() + seq![separator]);
            }
            return tail;
        }
        let mark = chars_of(self.root_mark().as_str());
        if self.names.len() > 0 || (self.rooted && mark.len() == 0) {
            letter(separator)
        } else {
            nothing()
        }
    }

    /// The entry `name` in this path.
    pub fn join(&self, name: &str) -> (r: FsPath)
        ensures
            r@ == self@.join(name@),
    {
        let mut names = copy_texts(&self.names);
        let ghost before = texts(names@);
        names.push(copy_text(name));
        assert(texts(names@) =~= before.push(name@));
        let spelling = match &self.spelling {
            Some(s) => {
                let mut gaps = self.first_gaps(self.names.len());
                let ghost so_far = texts(gaps@);
                gaps.push(self.next_gap());
                assert(texts(gaps@) =~= so_far.push(self@.next_gap()));
                Some(
                    Spelling {
                        lead: copy_text(s.lead.as_str()),
                        root: copy_text(s.root.as_str()),
                        gaps,
                        tail: nothing(),
                    },
                )
            },
            None => None,
        };
        FsPath { prefix: self.prefix.copy(), rooted: self.rooted, names, spelling }
    }

    /// The number of components.
    pub fn component_count(&self) -> (r: usize)
        requires
            self@.component_count() <= usize::MAX,
        ensures
            r == self@.component_count(),
    {
        let prefix: usize = if self.prefix.is_empty() {
            0
        } else {
            1
        };
        let root: usize = if self.rooted {
            1
        } else {
            0
        };
        prefix + root + self.names.len()
    }
}

/// Whether `p` is one of `list`, however it is written.
pub fn is_listed(p: &FsPath, list: &Vec<FsPath>) -> (r: bool)
    ensures
        r == places(path_views(list@)).contains(p@.place()),
{
    let ghost all = places(path_views(list@));
    for i in 0..list.len()
        invariant
            all == places(path_views(list@)),
            forall|k: int| 0 <= k < i ==> all[k] != p@.place(),
    {
        if list[i].same(p) {
            assert(all[i as int] == p@.place());
            return true;
        }
        assert(all[i as int] != p@.place());
    }
    false
}

/// A fresh copy of a list of paths.
pub fn copy_paths(list: &Vec<FsPath>) -> (r: Vec<FsPath>)
    ensures
        path_views(r@) == path_views(list@),
{
    let mut r: Vec<FsPath> = Vec::new();
    for i in 0..list.len()
        invariant
            r@.len() == i,
            forall|k: int| 0 <= k < i ==> (#[trigger] r@[k])@ == list@[k]@,
    {
        r.push(list[i].copy());
    }
    assert(path_views(r@) =~= path_views(list@));
    r
}

/// An entry of a directory lies in that directory.
pub proof fn entry_lies_in_directory(dir: PathView, name: Seq<char>)
    ensures
        dir.join(name).lies_in(dir),
        dir.spelling is None ==> dir.join(name).parent() == Some(dir),
        dir.join(name).starts_with(dir),
        is_entry_name(name) ==> dir.join(name).file_name() == Some(name),
{
    assert(dir.join(name).names.take(dir.names.len() as int) =~= dir.names);
}

/// What lies in a directory that lies in another lies in that one.
pub proof fn starts_with_is_transitive(a: PathView, b: PathView, c: PathView)
    requires
        a.starts_with(b),
        b.starts_with(c),
    ensures
        a.starts_with(c),
{
    assert(a.names.take(c.names.len() as int) =~= b.names.take(c.names.len() as int));
}

// ---------------------------------------------------------------------------
// Paths as text
// ---------------------------------------------------------------------------

impl PathPrefix {
    /// The prefix as it is usually written.
    pub fn to_text(&self) -> (r: String)
        ensures
            r@ == self@.written(),
    {
        let mut r = String::new();
        match self {
            PathPrefix::Bare | PathPrefix::Unix => {},
            PathPrefix::Disk(b) => {
                r.push(*b as char);
                r.push(':');
            },
            PathPrefix::VerbatimDisk(b) => {
                r.push('\\');
                r.push('\\');
                r.push('?');
                r.push('\\');
                r.push(*b as char);
                r.push(':');
            },
            PathPrefix::Other(s) => {
                r.append(s.as_str());
            },
        }
        assert(r@ =~= self@.written());
        r
    }

    /// What stands between the names of a path.
    pub fn separator(&self) -> (r: char)
        ensures
            r == self@.separator(),
    {
        match self {
            PathPrefix::Unix => '/',
            _ => '\\',
        }
    }
}

impl FsPath {
    /// The path as it is written, up to its last name.
    pub fn body(&self) -> (r: String)
        ensures
            r@ == self@.body(),
    {
        let mut r = self.lead();
        r.append(self.root_mark().as_str());
        let ghost start = r@;
        assert(start + self@.written_names(0) =~= start);
        for i in 0..self.names.len()
            invariant
                r@ == start + self@.written_names(i as nat),
        {
            r.append(self.gap(i).as_str());
            r.append(self.names[i].as_str());
            assert(r@ =~= start + self@.written_names((i + 1) as nat));
        }
        r
    }

    /// The path as it is written.
    pub fn to_text(&self) -> (r: String)
        ensures
            r@ == self@.written(),
    {
        let mut r = self.body();
        r.append(self.tail().as_str());
        r
    }
}

// ---------------------------------------------------------------------------
// Sets of paths and maps from paths
// ---------------------------------------------------------------------------

/// A list with one path more holds one path more.
pub proof fn pushing_adds_one<T>(list: Seq<T>, p: T)
    ensures
        list.push(p).to_set() == list.to_set().insert(p),
{
    assert forall|q: T| #[trigger] list.push(p).contains(q) <==> list.contains(q) || q == p by {
        if list.contains(q) {
            assert(list.push(p)[list.index_of(q)] == q);
        }
        assert(list.push(p)[list.len() as int] == p);
        if list.push(p).contains(q) {
            let k = list.push(p).index_of(q);
            if k < list.len() {
                assert(list[k] == q);
            }
        }
    }
    assert(list.push(p).to_set() =~= list.to_set().insert(p));
}

/// A finite map from paths. Paths that lead to the same place are one key, which keeps the
/// spelling that it came with.
pub struct PathMap<V> {
    keys: Vec<FsPath>,
    values: Vec<V>,
}

impl<V> View for PathMap<V> {
    type V = Map<PlaceView, V>;

    closed spec fn view(&self) -> Map<PlaceView, V> {
        Map::new(
            |p: PlaceView| places(path_views(self.keys@)).contains(p),
            |p: PlaceView| self.values@[places(path_views(self.keys@)).index_of(p)],
        )
    }
}

impl<V> PathMap<V> {
    /// No key is held twice, and each has one value.
    pub closed spec fn wf(&self) -> bool {
        self.keys@.len() == self.values@.len() && places(
            path_views(self.keys@),
        ).no_duplicates()
    }

    /// The keys, in the order in which they are held.
    pub closed spec fn order(&self) -> Seq<PathView> {
        path_views(self.keys@)
    }

    /// The keys as they are written.
    pub open spec fn held(&self) -> Set<PathView> {
        self.order().to_set()
    }

    /// The order holds each key of the map once.
    pub proof fn order_lists_keys(&self)
        requires
            self.wf(),
        ensures
            places(self.order()).no_duplicates(),
            forall|p: PlaceView| places(self.order()).contains(p) == self@.contains_key(p),
    {
    }

    /// The empty map.
    pub fn new() -> (r: PathMap<V>)
        ensures
            r.wf(),
            r@ == Map::<PlaceView, V>::empty(),
            r.order() == Seq::<PathView>::empty(),
    {
        let r = PathMap { keys: Vec::new(), values: Vec::new() };
        assert(path_views(r.keys@) =~= Seq::empty());
        assert(places(path_views(r.keys@)) =~= Seq::empty());
        assert(r@ =~= Map::empty());
        r
    }

    /// The position of a key.
    fn find(&self, p: &FsPath) -> (r: Option<usize>)
        requires
            self.wf(),
        ensures
            match r {
                Some(i) => i < self.keys@.len() && self.keys@[i as int]@.is_same(p@)
                    && self@.contains_key(p@.place()) && self@[p@.place()]
                    == self.values@[i as int],
                None => !self@.contains_key(p@.place()),
            },
    {
        let ghost all = places(path_views(self.keys@));
        for i in 0..self.keys.len()
            invariant
                self.wf(),
                all == places(path_views(self.keys@)),
                forall|k: int| 0 <= k < i ==> all[k] != p@.place(),
        {
            if self.keys[i].same(p) {
                assert(all[i as int] == p@.place());
                return Some(i);
            }
            assert(all[i as int] != p@.place());
        }
        None
    }

    /// Whether `p` is a key.
    pub fn contains(&self, p: &FsPath) -> (r: bool)
        requires
            self.wf(),
        ensures
            r == self@.contains_key(p@.place()),
    {
        self.find(p).is_some()
    }

    /// The value of `p`.
    pub fn get(&self, p: &FsPath) -> (r: Option<&V>)
        requires
            self.wf(),
        ensures
            match r {
                Some(v) => self@.contains_key(p@.place()) && self@[p@.place()] == *v,
                None => !self@.contains_key(p@.place()),
            },
    {
        match self.find(p) {
            Some(i) => Some(&self.values[i]),
            None => None,
        }
    }

    /// The number of keys.
    pub fn len(&self) -> (r: usize)
        requires
            self.wf(),
        ensures
            r == self.order().len(),
    {
        self.keys.len()
    }

    /// The key at position `i` of the order.
    pub fn key_at(&self, i: usize) -> (r: &FsPath)
        requires
            self.wf(),
            i < self.order().len(),
        ensures
            r@ == self.order()[i as int],
    {
        &self.keys[i]
    }

    /// Gives `p` the value `v`.
    pub fn insert(&mut self, p: &FsPath, v: V)
        requires
            old(self).wf(),
        ensures
            final(self).wf(),
            final(self)@ == old(self)@.insert(p@.place(), v),
            final(self).order() == if old(self)@.contains_key(p@.place()) {
                old(self).order()
            } else {
                old(self).order().push(p@)
            },
            final(self).held() == if old(self)@.contains_key(p@.place()) {
                old(self).held()
            } else {
                old(self).held().insert(p@)
            },
    {
        let ghost keys = places(path_views(self.keys@));
        match self.find(p) {
            Some(i) => {
                self.values.set(i, v);
                assert(keys[i as int] == p@.place());
                assert(self@ =~= old(self)@.insert(p@.place(), v));
            },
            None => {
                let ghost held = path_views(self.keys@);
                self.keys.push(p.copy());
                self.values.push(v);
                assert(path_views(self.keys@) =~= held.push(p@));
                let ghost after = places(path_views(self.keys@));
                assert(after =~= keys.push(p@.place()));
                assert forall|q: PlaceView| keys.contains(q) implies after.index_of(q)
                    == keys.index_of(q) by {
                    let i = keys.index_of(q);
                    assert(after[i] == q);
                }
                assert forall|q: PlaceView| #[trigger] after.contains(q) implies keys.contains(q)
                    || q == p@.place() by {
                    let i = after.index_of(q);
                    if i < keys.len() {
                        assert(keys[i] == q);
                    }
                }
                assert forall|q: PlaceView| keys.contains(q) implies #[trigger] after.contains(
                    q,
                ) by {
                    assert(after[keys.index_of(q)] == q);
                }
                assert(after[keys.len() as int] == p@.place());
                assert(self.held() =~= old(self).held().insert(p@)) by {
                    pushing_adds_one(held, p@);
                }
                assert(self@ =~= old(self)@.insert(p@.place(), v));
            },
        }
    }

    /// Takes `p` out.
    pub fn remove(&mut self, p: &FsPath)
        requires
            old(self).wf(),
        ensures
            final(self).wf(),
            final(self)@ == old(self)@.remove(p@.place()),
            final(self).held() == old(self).held().filter(
                |k: PathView| k.place() != p@.place(),
            ),
    {
        let ghost held = path_views(self.keys@);
        match self.find(p) {
            Some(i) => {
                let ghost keys = places(path_views(self.keys@));
                let ghost values = self.values@;
                assert(keys[i as int] == p@.place());
                self.keys.remove(i);
                self.values.remove(i);
                let ghost after = places(path_views(self.keys@));
                assert(after =~= keys.remove(i as int));
                assert(after.no_duplicates());
                assert forall|q: PlaceView| q != p@.place() && keys.contains(q) implies after.contains(
                    q,
                ) && self.values@[after.index_of(q)] == values[keys.index_of(q)] by {
                    let k = keys.index_of(q);
                    let j = if k < i {
                        k
                    } else {
                        k - 1
                    };
                    assert(after[j] == q);
                    assert(after.index_of(q) == j);
                }
                assert forall|q: PlaceView| #[trigger] after.contains(q) implies keys.contains(q)
                    && q != p@.place() by {
                    let j = after.index_of(q);
                    let k = if j < i {
                        j
                    } else {
                        j + 1
                    };
                    assert(keys[k] == q);
                }
                assert(self@ =~= old(self)@.remove(p@.place()));
                let ghost left = path_views(self.keys@);
                assert(left =~= held.remove(i as int));
                assert(self.held() =~= old(self).held().filter(
                    |k: PathView| k.place() != p@.place(),
                )) by {
                    assert forall|q: PathView| #[trigger] left.contains(q) <==> held.contains(q)
                        && q.place() != p@.place() by {
                        if left.contains(q) {
                            let j = left.index_of(q);
                            assert(held[if j < i { j } else { j + 1 }] == q);
                            assert(after[j] == q.place());
                            assert(after.contains(q.place()));
                        }
                        if held.contains(q) && q.place() != p@.place() {
                            let k = held.index_of(q);
                            assert(k != i);
                            assert(left[if k < i { k } else { k - 1 }] == q);
                        }
                    }
                }
            },
            None => {
                assert(self@ =~= old(self)@.remove(p@.place()));
                assert(self.held() =~= old(self).held().filter(
                    |k: PathView| k.place() != p@.place(),
                )) by {
                    assert forall|q: PathView| held.contains(q) implies q.place() != p@.place() by {
                        let k = held.index_of(q);
                        assert(places(held)[k] == q.place());
                    }
                }
            },
        }
    }
}

impl<V> PathMap<V> {
    /// Takes every one of `list` out.
    pub fn remove_all(&mut self, list: &Vec<FsPath>)
        requires
            old(self).wf(),
        ensures
            final(self).wf(),
            final(self)@ == old(self)@.remove_keys(places(path_views(list@)).to_set()),
            final(self).held() == old(self).held().filter(
                |k: PathView| !places(path_views(list@)).contains(k.place()),
            ),
    {
        let ghost all = places(path_views(list@));
        assert(self@ =~= old(self)@.remove_keys(all.take(0).to_set()));
        assert(self.held() =~= old(self).held().filter(
            |k: PathView| !all.take(0).contains(k.place()),
        ));
        for i in 0..list.len()
            invariant
                self.wf(),
                all == places(path_views(list@)),
                self@ == old(self)@.remove_keys(all.take(i as int).to_set()),
                self.held() == old(self).held().filter(
                    |k: PathView| !all.take(i as int).contains(k.place()),
                ),
        {
            self.remove(&list[i]);
            assert(all.take(i + 1) =~= all.take(i as int).push(all[i as int]));
            assert forall|p: PlaceView| all.take(i + 1).to_set().contains(p) <==> all.take(
                i as int,
            ).to_set().contains(p) || p == all[i as int] by {
                if all.take(i as int).contains(p) {
                    assert(all.take(i + 1)[all.take(i as int).index_of(p)] == p);
                }
                assert(all.take(i + 1)[i as int] == all[i as int]);
                if all.take(i + 1).contains(p) {
                    let k = all.take(i + 1).index_of(p);
                    if k < i {
                        assert(all.take(i as int)[k] == p);
                    }
                }
            }
            assert(self@ =~= old(self)@.remove_keys(all.take(i + 1).to_set()));
            assert(self.held() =~= old(self).held().filter(
                |k: PathView| !all.take(i + 1).contains(k.place()),
            )) by {
                assert forall|p: PlaceView| all.take(i + 1).contains(p) <==> all.take(
                    i as int,
                ).contains(p) || p == all[i as int] by {
                    assert(all.take(i + 1).to_set().contains(p) <==> all.take(
                        i as int,
                    ).to_set().contains(p) || p == all[i as int]);
                }
            }
        }
        assert(all.take(list@.len() as int) =~= all);
    }
}

// ---------------------------------------------------------------------------
// What paths promise
// ---------------------------------------------------------------------------

/// An entry of a folder has the folder's names and its own behind them; it lies in the folder, and
/// it is called by its name, unless that is one that names no entry.
pub proof fn an_entry_has_the_names_of_its_folder(dir: PathView, name: Seq<char>)
    ensures
        dir.join(name).names == dir.names.push(name),
        dir.join(name).prefix == dir.prefix,
        dir.join(name).rooted == dir.rooted,
        dir.join(name).parent() matches Some(p) && p.names == dir.names && p.prefix == dir.prefix
            && p.rooted == dir.rooted,
        name != seq!['.'] && name != seq!['.', '.'] ==> dir.join(name).file_name() == Some(name),
        name == seq!['.'] || name == seq!['.', '.'] ==> dir.join(name).file_name() is None,
{
    assert(dir.join(name).names.take(dir.names.len() as int) =~= dir.names);
}

/// A path with names lies in the folder that the names before the last one lead to; one without
/// names lies in none.
pub proof fn the_parent_has_all_names_but_the_last(p: PathView)
    ensures
        p.names.len() > 0 ==> (p.parent() matches Some(d) && d.names == p.names.drop_last()
            && d.prefix == p.prefix && d.rooted == p.rooted && d.join(p.names.last()).is_same(p)
            && p.lies_in(d)),
        p.names.len() == 0 ==> p.parent() is None && p.file_name() is None,
{
    if p.names.len() > 0 {
        assert(p.names.take(p.names.len() - 1) =~= p.names.drop_last());
        assert(p.names.drop_last().push(p.names.last()) =~= p.names);
    }
}

/// Paths are the same where their prefixes, their roots and all their names are, however they are
/// written.
pub proof fn same_paths_have_the_same_parts(a: PathView, b: PathView)
    ensures
        a.is_same(b) <==> a.prefix == b.prefix && a.rooted == b.rooted && a.names.len()
            == b.names.len() && forall|i: int|
            0 <= i < a.names.len() ==> #[trigger] a.names[i] == b.names[i],
{
    if a.prefix == b.prefix && a.rooted == b.rooted && a.names.len() == b.names.len() && (forall|
        i: int,
    |
        0 <= i < a.names.len() ==> #[trigger] a.names[i] == b.names[i]) {
        assert(a.names =~= b.names);
    }
}

/// A path lies within another where it goes on from there with more names, or none.
pub proof fn a_path_goes_on_from_what_it_lies_within(p: PathView, base: PathView)
    ensures
        p.starts_with(base) <==> p.prefix == base.prefix && p.rooted == base.rooted && exists|
            rest: Seq<Seq<char>>,
        | p.names == #[trigger] (base.names + rest),
{
    if p.starts_with(base) {
        let rest = p.names.skip(base.names.len() as int);
        assert(p.names =~= base.names + rest);
    }
    if exists|rest: Seq<Seq<char>>| p.names == #[trigger] (base.names + rest) {
        let rest = choose|rest: Seq<Seq<char>>| p.names == #[trigger] (base.names + rest);
        assert((base.names + rest).take(base.names.len() as int) =~= base.names);
    }
}

/// A name that is made of a stem, a dot and what holds no dot is split there; a name without a
/// dot, or with a single one at its start, has no extension.
pub proof fn the_last_dot_splits_a_name(stem: Seq<char>, ext: Seq<char>)
    requires
        forall|i: int| 0 <= i < ext.len() ==> #[trigger] ext[i] != '.',
    ensures
        stem.len() > 0 ==> stem_of(stem + seq!['.'] + ext) == stem,
        stem.len() > 0 ==> extension_of(stem + seq!['.'] + ext) == Some(ext),
        stem.len() > 0 ==> dotted_extension(stem + seq!['.'] + ext) == seq!['.'] + ext,
        stem_of(ext) == ext,
        extension_of(ext) is None,
        stem_of(seq!['.'] + ext) == seq!['.'] + ext,
        extension_of(seq!['.'] + ext) is None,
{
    let name = stem + seq!['.'] + ext;
    crate::text::last_position_holds(name, '.');
    crate::text::last_position_holds(ext, '.');
    let hidden = seq!['.'] + ext;
    crate::text::last_position_holds(hidden, '.');
    let at = stem.len() as int;
    assert(name[at] == '.');
    assert(forall|k: int| at < k < name.len() ==> name[k] == ext[k - at - 1]);
    assert(hidden[0] == '.');
    assert(forall|k: int| 0 < k < hidden.len() ==> hidden[k] == ext[k - 1]);
    assert(crate::text::last_position(hidden, '.') == Some(0int));
    assert(crate::text::last_position(name, '.') == Some(at));
    assert(name.take(at) =~= stem);
    assert(name.skip(at + 1) =~= ext);
}

/// The components of a path: one for a prefix, one for the root, and one for each name.
pub proof fn components_add_up(p: PathView, name: Seq<char>)
    ensures
        p.join(name).component_count() == p.component_count() + 1,
        (PathView { names: Seq::empty(), ..p }).component_count() <= 2,
        p.prefix is Disk && p.rooted ==> p.component_count() == 2 + p.names.len(),
        p.prefix is Unix && p.rooted ==> p.component_count() == 1 + p.names.len(),
{
}

/// A path that is written in the usual way: an entry stands behind its folder and one separator,
/// which a root brings along.
pub proof fn an_entry_is_written_with_one_separator(dir: PathView, name: Seq<char>)
    requires
        dir.spelling is None,
    ensures
        dir.names.len() > 0 ==> dir.join(name).written() == dir.written() + seq![
            dir.prefix.separator(),
        ] + name,
        dir.names.len() == 0 ==> dir.join(name).written() == dir.written() + name,
        dir.names.len() == 0 ==> dir.written() == dir.prefix.written() + (if dir.rooted {
            seq![dir.prefix.separator()]
        } else {
            Seq::empty()
        }),
        dir.prefix is Unix ==> dir.prefix.separator() == '/' && dir.prefix.written().len() == 0,
        dir.prefix is Disk ==> dir.prefix.separator() == '\\' && dir.prefix.written().len() == 2
            && dir.prefix.written()[1] == ':',
{
    let e = dir.join(name);
    let n = dir.names.len();
    usual_names_agree(dir, name, n);
    assert(e.names[n as int] == name);
    assert(e.tail() =~= Seq::empty());
    assert(e.written() =~= e.body());
    assert(dir.written() =~= dir.body());
    if n > 0 {
        assert(e.written() =~= dir.written() + seq![dir.prefix.separator()] + name);
    } else {
        assert(dir.written_names(0) =~= Seq::empty());
        assert(e.written() =~= dir.written() + name);
        assert(dir.written() =~= dir.prefix.written() + dir.root_mark());
    }
}

proof fn usual_names_agree(dir: PathView, name: Seq<char>, k: nat)
    requires
        dir.spelling is None,
        k <= dir.names.len(),
    ensures
        dir.join(name).written_names(k) == dir.written_names(k),
    decreases k,
{
    if k > 0 {
        usual_names_agree(dir, name, (k - 1) as nat);
        assert(dir.join(name).names[k - 1] == dir.names[k - 1]);
    }
}

} // verus!
