//! Drives: their list, their kinds and their space.
use crate::paths::{FsPath, PathView};
use crate::path_keys::{strip_separators, without_separators};
use crate::text::{begins_with, copy_text, has_prefix, is_one_of, joined, text_eq, texts};
use crate::types::DriveKind;
use vstd::prelude::*;

verus! {

/// The root of the drive with the given letter.
pub open spec fn drive_root(letter: char) -> Seq<char> {
    seq![letter, ':', '\\']
}

/// The root of the drive with the given letter, such as `C:\`.
pub fn root_of(letter: char) -> (r: String)
    ensures
        r@ == drive_root(letter),
{
    let mut r = String::new();
    r.push(letter);
    r.push(':');
    r.push('\\');
    assert(r@ =~= drive_root(letter));
    r
}

/// The device of the drive with the given letter, such as `\\.\C:`.
pub fn device_of(letter: char) -> (r: String)
    ensures
        r@ == seq!['\\', '\\', '.', '\\', letter, ':'],
{
    let mut r = String::new();
    r.push('\\');
    r.push('\\');
    r.push('.');
    r.push('\\');
    r.push(letter);
    r.push(':');
    assert(r@ =~= seq!['\\', '\\', '.', '\\', letter, ':']);
    r
}

/// The roots of the drives from `A` on whose flag is set.
pub open spec fn present_roots(present: Seq<bool>) -> Seq<Seq<char>>
    decreases present.len(),
{
    if present.len() == 0 {
        Seq::empty()
    } else if present.last() {
        present_roots(present.drop_last()).push(
            drive_root((64 + present.len()) as u8 as char),
        )
    } else {
        present_roots(present.drop_last())
    }
}

/// The roots of the drives that exist, in the order of their letters, given
/// for each letter from `A` to `Z` whether its drive exists.
pub fn list_drives(present: &Vec<bool>) -> (r: Vec<String>)
    requires
        present@.len() == 26,
    ensures
        texts(r@) == present_roots(present@),
{
    let mut r: Vec<String> = Vec::new();
    assert(texts(r@) =~= present_roots(present@.take(0)));
    for i in 0..present.len()
        invariant
            present@.len() == 26,
            texts(r@) == present_roots(present@.take(i as int)),
    {
        assert(present@.take(i + 1).drop_last() =~= present@.take(i as int));
        if present[i] {
            let ghost before = texts(r@);
            r.push(root_of((65 + i as u8) as char));
            assert(texts(r@) =~= before.push(drive_root((65 + i) as u8 as char)));
        }
    }
    assert(present@.take(26) =~= present@);
    r
}

/// The kind of a drive, given what the system calls it, its bus and whether
/// it is known to be without seek penalty. A fixed drive on the USB bus
/// counts as removable, and one of which nothing is known as a hard disk.
pub open spec fn drive_kind(code: u32, bus: Option<u32>, is_ssd: Option<bool>) -> DriveKind {
    if code == 2 {
        DriveKind::Removable
    } else if code == 4 {
        DriveKind::Network
    } else if code == 5 {
        DriveKind::CdRom
    } else if code == 3 {
        if bus == Some(7u32) {
            DriveKind::Removable
        } else if is_ssd == Some(true) {
            DriveKind::Ssd
        } else {
            DriveKind::Hdd
        }
    } else {
        DriveKind::Unknown
    }
}

/// The kind of a drive.
pub fn classify_drive(code: u32, bus: Option<u32>, is_ssd: Option<bool>) -> (r: DriveKind)
    ensures
        r == drive_kind(code, bus, is_ssd),
{
    match code {
        2 => DriveKind::Removable,
        4 => DriveKind::Network,
        5 => DriveKind::CdRom,
        3 => {
            let usb = match bus {
                Some(b) => b == 7,
                None => false,
            };
            if usb {
                return DriveKind::Removable;
            }
            match is_ssd {
                Some(true) => DriveKind::Ssd,
                _ => DriveKind::Hdd,
            }
        },
        _ => DriveKind::Unknown,
    }
}

/// Whether a drive is without seek penalty, given the system's answer and the
/// flag in it.
pub fn ssd_from_answer(answered: bool, seek_penalty: u8) -> (r: Option<bool>)
    ensures
        r == if answered {
            Some(seek_penalty == 0)
        } else {
            None
        },
{
    if answered {
        Some(seek_penalty == 0)
    } else {
        None
    }
}

/// The free and the total bytes of a drive; nothing where the system did not
/// answer.
pub fn drive_space(answered: bool, free: u64, total: u64) -> (r: (u64, u64))
    ensures
        r == if answered {
            (free, total)
        } else {
            (0u64, 0u64)
        },
{
    if answered {
        (free, total)
    } else {
        (0, 0)
    }
}

/// The unit in which a number of bytes is shown.
#[derive(Clone, Copy, PartialEq, Eq, Structural)]
pub enum SpaceUnit {
    Kb,
    Mb,
    Gb,
    Tb,
}

/// The largest unit that is not larger than the number of bytes, from
/// megabytes on.
pub fn space_unit(bytes: u64) -> (r: SpaceUnit)
    ensures
        r == if bytes >= 0x100_0000_0000 {
            SpaceUnit::Tb
        } else if bytes >= 0x4000_0000 {
            SpaceUnit::Gb
        } else if bytes >= 0x10_0000 {
            SpaceUnit::Mb
        } else {
            SpaceUnit::Kb
        },
{
    if bytes >= 0x100_0000_0000 {
        SpaceUnit::Tb
    } else if bytes >= 0x4000_0000 {
        SpaceUnit::Gb
    } else if bytes >= 0x10_0000 {
        SpaceUnit::Mb
    } else {
        SpaceUnit::Kb
    }
}

// ---------------------------------------------------------------------------
// Drives that may sleep
// ---------------------------------------------------------------------------

/// A drive as the left panel shows it.
pub struct DriveInfo {
    /// Its root, such as `C:\`.
    pub drive: String,
    pub kind: DriveKind,
    pub free_bytes: u64,
    pub total_bytes: u64,
}

/// `s` with a backslash at its end.
pub open spec fn with_backslash(s: Seq<char>) -> Seq<char> {
    if s.len() > 0 && s.last() == '\\' {
        s
    } else {
        s.push('\\')
    }
}

/// The first component of a path.
pub open spec fn first_component(p: PathView) -> Option<Seq<char>> {
    if !p.prefix.is_empty() {
        Some(p.prefix.written())
    } else if p.rooted {
        Some(seq![p.prefix.separator()])
    } else if p.names.len() > 0 {
        Some(p.names[0])
    } else {
        None
    }
}

/// Whether drives of this kind may have to spin up or to connect.
pub open spec fn may_sleep(kind: DriveKind) -> bool {
    kind == DriveKind::Hdd || kind == DriveKind::Removable || kind == DriveKind::Network
}

proof fn ends_with_backslash(s: Seq<char>)
    ensures
        crate::text::ends_with(s, "\\"@) <==> (s.len() > 0 && s.last() == '\\'),
{
    reveal_strlit("\\");
    if s.len() > 0 {
        assert(s.subrange(s.len() - 1, s.len() as int)[0] == s.last());
        if s.last() == '\\' {
            assert(s.subrange(s.len() - 1, s.len() as int) =~= "\\"@);
        }
    }
}

// ---------------------------------------------------------------------------
// Drives that come and go
// ---------------------------------------------------------------------------

/// The drives that are there, the kinds that are known and the space that was measured.
pub struct DriveTable {
    pub available: Vec<String>,
    pub kinds: Vec<(String, DriveKind)>,
    pub infos: Vec<DriveInfo>,
}

/// The view of a `DriveInfo`.
#[verifier::ext_equal]
pub struct InfoView {
    pub drive: Seq<char>,
    pub kind: DriveKind,
    pub free_bytes: u64,
    pub total_bytes: u64,
}

impl View for DriveInfo {
    type V = InfoView;

    open spec fn view(&self) -> InfoView {
        InfoView {
            drive: self.drive@,
            kind: self.kind,
            free_bytes: self.free_bytes,
            total_bytes: self.total_bytes,
        }
    }
}

/// The view of a `DriveTable`.
#[verifier::ext_equal]
pub struct TableView {
    pub available: Seq<Seq<char>>,
    pub kinds: Seq<(Seq<char>, DriveKind)>,
    pub infos: Seq<InfoView>,
}

impl View for DriveTable {
    type V = TableView;

    open spec fn view(&self) -> TableView {
        TableView {
            available: texts(self.available@),
            kinds: kind_views(self.kinds@),
            infos: info_views(self.infos@),
        }
    }
}

/// The views of a list of kinds.
pub open spec fn kind_views(v: Seq<(String, DriveKind)>) -> Seq<(Seq<char>, DriveKind)> {
    Seq::new(v.len(), |i: int| (v[i].0@, v[i].1))
}

/// The views of a list of measurements.
pub open spec fn info_views(v: Seq<DriveInfo>) -> Seq<InfoView> {
    Seq::new(v.len(), |i: int| v[i]@)
}

/// The drives with a known kind.
pub open spec fn kind_roots(v: Seq<(Seq<char>, DriveKind)>) -> Seq<Seq<char>> {
    Seq::new(v.len(), |i: int| v[i].0)
}

/// The drives whose space was measured.
pub open spec fn info_roots(v: Seq<InfoView>) -> Seq<Seq<char>> {
    Seq::new(v.len(), |i: int| v[i].drive)
}

/// The texts of `list` that are not among `known`.
pub open spec fn missing(list: Seq<Seq<char>>, known: Seq<Seq<char>>) -> Seq<Seq<char>>
    decreases list.len(),
{
    if list.len() == 0 {
        Seq::empty()
    } else if known.contains(list.last()) {
        missing(list.drop_last(), known)
    } else {
        missing(list.drop_last(), known).push(list.last())
    }
}

/// The kinds of the drives among `list`.
pub open spec fn kinds_within(v: Seq<(Seq<char>, DriveKind)>, list: Seq<Seq<char>>) -> Seq<
    (Seq<char>, DriveKind),
>
    decreases v.len(),
{
    if v.len() == 0 {
        Seq::empty()
    } else if list.contains(v.last().0) {
        kinds_within(v.drop_last(), list).push(v.last())
    } else {
        kinds_within(v.drop_last(), list)
    }
}

/// The measured space of the drives among `list`.
pub open spec fn infos_within(v: Seq<InfoView>, list: Seq<Seq<char>>) -> Seq<InfoView>
    decreases v.len(),
{
    if v.len() == 0 {
        Seq::empty()
    } else if list.contains(v.last().drive) {
        infos_within(v.drop_last(), list).push(v.last())
    } else {
        infos_within(v.drop_last(), list)
    }
}

impl TableView {
    /// The table after the drives `current` were found: what was known of drives that went is
    /// forgotten.
    pub open spec fn rescanned(self, current: Seq<Seq<char>>) -> TableView {
        if self.available == current {
            self
        } else {
            TableView {
                available: current,
                kinds: kinds_within(self.kinds, current),
                infos: infos_within(self.infos, current),
            }
        }
    }

    /// The drives of unknown kind among `current`; none where nothing came or went.
    pub open spec fn unclassified(self, current: Seq<Seq<char>>) -> Seq<Seq<char>> {
        if self.available == current {
            Seq::empty()
        } else {
            missing(current, kind_roots(self.kinds))
        }
    }

    /// The drives among `current` whose space was not measured; none where nothing came or went.
    pub open spec fn unmeasured(self, current: Seq<Seq<char>>) -> Seq<Seq<char>> {
        if self.available == current {
            Seq::empty()
        } else {
            missing(current, info_roots(self.infos))
        }
    }

    /// Of every drive that is there the kind is known and the space was measured, and of no
    /// other.
    pub open spec fn complete(self) -> bool {
        &&& kind_roots(self.kinds).to_set() == self.available.to_set()
        &&& info_roots(self.infos).to_set() == self.available.to_set()
    }
}

/// What is left to find out of the drives that are there.
pub struct OpenQuestions {
    /// The drives of unknown kind.
    pub unclassified: Vec<String>,
    /// The drives whose space was not measured.
    pub unmeasured: Vec<String>,
}

/// Whether two lists of texts are the same.
fn same_texts(a: &Vec<String>, b: &Vec<String>) -> (r: bool)
    ensures
        r == (texts(a@) == texts(b@)),
{
    if a.len() != b.len() {
        assert(texts(a@).len() != texts(b@).len());
        return false;
    }
    for i in 0..a.len()
        invariant
            a@.len() == b@.len(),
            forall|k: int| 0 <= k < i ==> texts(a@)[k] == texts(b@)[k],
    {
        if !text_eq(a[i].as_str(), b[i].as_str()) {
            assert(texts(a@)[i as int] != texts(b@)[i as int]);
            return false;
        }
    }
    assert(texts(a@) =~= texts(b@));
    true
}

/// The texts of `list` that are not among `known`.
fn find_missing(list: &Vec<String>, known: &Vec<String>) -> (r: Vec<String>)
    ensures
        texts(r@) == missing(texts(list@), texts(known@)),
{
    let ghost all = texts(list@);
    let mut r: Vec<String> = Vec::new();
    assert(texts(r@) =~= missing(all.take(0), texts(known@)));
    for i in 0..list.len()
        invariant
            all == texts(list@),
            texts(r@) == missing(all.take(i as int), texts(known@)),
    {
        let ghost before = texts(r@);
        assert(all.take(i + 1).drop_last() =~= all.take(i as int));
        assert(all.take(i + 1).last() == list@[i as int]@);
        if !is_one_of(list[i].as_str(), known) {
            r.push(copy_text(list[i].as_str()));
            assert(texts(r@) =~= before.push(list@[i as int]@));
        }
    }
    assert(all.take(all.len() as int) =~= all);
    r
}

impl DriveTable {
    /// A table without drives.
    pub fn new() -> (r: DriveTable)
        ensures
            r.available@.len() == 0,
            r.kinds@.len() == 0,
            r.infos@.len() == 0,
    {
        DriveTable { available: Vec::new(), kinds: Vec::new(), infos: Vec::new() }
    }

    /// Takes note of the drives that are there now. Where they are the same as before, nothing
    /// is to be found out; else what was known of drives that went is forgotten, and the drives
    /// are named that nothing is known of.
    pub fn rescan(&mut self, current: Vec<String>) -> (r: OpenQuestions)
        ensures
            final(self)@ == old(self)@.rescanned(texts(current@)),
            texts(r.unclassified@) == old(self)@.unclassified(texts(current@)),
            texts(r.unmeasured@) == old(self)@.unmeasured(texts(current@)),
    {
        if same_texts(&self.available, &current) {
            let r = OpenQuestions { unclassified: Vec::new(), unmeasured: Vec::new() };
            assert(texts(r.unclassified@) =~= Seq::empty());
            assert(texts(r.unmeasured@) =~= Seq::empty());
            return r;
        }
        let ghost found = texts(current@);
        let mut classified: Vec<String> = Vec::new();
        let mut kinds: Vec<(String, DriveKind)> = Vec::new();
        let ghost all = kind_views(self.kinds@);
        assert(kind_views(kinds@) =~= kinds_within(all.take(0), found));
        let n: usize = self.kinds.len();
        for i in 0..n
            invariant
                n == self.kinds@.len(),
                all == kind_views(self.kinds@),
                found == texts(current@),
                texts(classified@) == kind_roots(all).take(i as int),
                kind_views(kinds@) == kinds_within(all.take(i as int), found),
        {
            let ghost before = texts(classified@);
            let ghost kinds0 = kind_views(kinds@);
            assert(all.take(i + 1).drop_last() =~= all.take(i as int));
            assert(all.take(i + 1).last() == all[i as int]);
            let root = self.kinds[i].0.as_str();
            classified.push(copy_text(root));
            assert(texts(classified@) =~= before.push(all[i as int].0));
            assert(texts(classified@) =~= kind_roots(all).take(i + 1));
            if is_one_of(root, &current) {
                kinds.push((copy_text(root), self.kinds[i].1));
                assert(kind_views(kinds@) =~= kinds0.push(all[i as int]));
            }
        }
        assert(all.take(n as int) =~= all);
        assert(kind_roots(all).take(n as int) =~= kind_roots(all));
        let mut measured: Vec<String> = Vec::new();
        let mut infos: Vec<DriveInfo> = Vec::new();
        let ghost every = info_views(self.infos@);
        assert(info_views(infos@) =~= infos_within(every.take(0), found));
        let m: usize = self.infos.len();
        for i in 0..m
            invariant
                m == self.infos@.len(),
                every == info_views(self.infos@),
                found == texts(current@),
                texts(measured@) == info_roots(every).take(i as int),
                info_views(infos@) == infos_within(every.take(i as int), found),
        {
            let ghost before = texts(measured@);
            let ghost infos0 = info_views(infos@);
            assert(every.take(i + 1).drop_last() =~= every.take(i as int));
            assert(every.take(i + 1).last() == every[i as int]);
            let info = &self.infos[i];
            measured.push(copy_text(info.drive.as_str()));
            assert(texts(measured@) =~= before.push(every[i as int].drive));
            assert(texts(measured@) =~= info_roots(every).take(i + 1));
            if is_one_of(info.drive.as_str(), &current) {
                infos.push(
                    DriveInfo {
                        drive: copy_text(info.drive.as_str()),
                        kind: info.kind,
                        free_bytes: info.free_bytes,
                        total_bytes: info.total_bytes,
                    },
                );
                assert(info_views(infos@) =~= infos0.push(every[i as int]));
            }
        }
        assert(every.take(m as int) =~= every);
        assert(info_roots(every).take(m as int) =~= info_roots(every));
        let unclassified = find_missing(&current, &classified);
        let unmeasured = find_missing(&current, &measured);
        self.kinds = kinds;
        self.infos = infos;
        self.available = current;
        OpenQuestions { unclassified, unmeasured }
    }

    /// The known kind of the drive with the given root.
    pub fn kind_of(&self, root: &str) -> (r: DriveKind)
        ensures
            r == known_kind(self@.kinds, root@),
    {
        let ghost all = self@.kinds;
        let mut i: usize = 0;
        assert(all.skip(0) =~= all);
        while i < self.kinds.len()
            invariant
                i <= self.kinds@.len(),
                all == self@.kinds,
                known_kind(all, root@) == known_kind(all.skip(i as int), root@),
            decreases self.kinds@.len() - i,
        {
            assert(all.skip(i as int)[0] == all[i as int]);
            if text_eq(self.kinds[i].0.as_str(), root) {
                return self.kinds[i].1;
            }
            assert(all.skip(i as int).drop_first() =~= all.skip(i + 1));
            i = i + 1;
        }
        DriveKind::Unknown
    }

    /// Whether `path` lies on a drive that may have to spin up, so that reading it could block.
    pub fn is_slow_drive(&self, path: &FsPath) -> (r: bool)
        ensures
            r == match first_component(path@) {
                Some(c) => may_sleep(known_kind(self@.kinds, with_backslash(c))),
                None => false,
            },
    {
        let mut root: String = if !path.prefix.is_empty() {
            path.prefix.to_text()
        } else if path.rooted {
            let mut s = String::new();
            s.push(path.prefix.separator());
            assert(s@ =~= seq![path@.prefix.separator()]);
            s
        } else if path.names.len() > 0 {
            copy_text(path.names[0].as_str())
        } else {
            return false;
        };
        assert(first_component(path@) == Some(root@));
        if !crate::text::has_suffix(root.as_str(), "\\") {
            proof {
                ends_with_backslash(root@);
            }
            root.push('\\');
        } else {
            proof {
                ends_with_backslash(root@);
            }
        }
        let kind = self.kind_of(root.as_str());
        match kind {
            DriveKind::Hdd | DriveKind::Removable | DriveKind::Network => true,
            _ => false,
        }
    }
}

/// The kind of a drive, as far as it is known.
pub open spec fn known_kind(kinds: Seq<(Seq<char>, DriveKind)>, root: Seq<char>) -> DriveKind
    decreases kinds.len(),
{
    if kinds.len() == 0 {
        DriveKind::Unknown
    } else if kinds[0].0 == root {
        kinds[0].1
    } else {
        known_kind(kinds.drop_first(), root)
    }
}

/// Once the questions of a scan are answered, the table is complete: of every drive that is
/// there the kind is known and the space was measured, and of no other.
pub proof fn answers_complete_the_table(
    t: TableView,
    current: Seq<Seq<char>>,
    kinds: Seq<(Seq<char>, DriveKind)>,
    infos: Seq<InfoView>,
)
    requires
        t.complete(),
        kind_roots(kinds) == t.unclassified(current),
        info_roots(infos) == t.unmeasured(current),
    ensures
        ({
            let after = t.rescanned(current);
            TableView {
                kinds: after.kinds + kinds,
                infos: after.infos + infos,
                ..after
            }.complete()
        }),
{
    let after = t.rescanned(current);
    let full = TableView { kinds: after.kinds + kinds, infos: after.infos + infos, ..after };
    assert forall|d: Seq<char>| #[trigger] kind_roots(full.kinds).contains(d)
        <==> full.available.contains(d) by {
        roots_joined(after.kinds, kinds, d);
        if t.available != current {
            missing_ones(current, kind_roots(t.kinds), d);
            kept_kinds(t.kinds, current, d);
        } else {
            assert(kind_roots(t.kinds).to_set().contains(d) <==> t.available.to_set().contains(d));
        }
    }
    assert(kind_roots(full.kinds).to_set() =~= full.available.to_set());
    assert forall|d: Seq<char>| #[trigger] info_roots(full.infos).contains(d)
        <==> full.available.contains(d) by {
        info_roots_joined(after.infos, infos, d);
        if t.available != current {
            missing_ones(current, info_roots(t.infos), d);
            kept_infos(t.infos, current, d);
        } else {
            assert(info_roots(t.infos).to_set().contains(d) <==> t.available.to_set().contains(d));
        }
    }
    assert(info_roots(full.infos).to_set() =~= full.available.to_set());
}

proof fn missing_ones(list: Seq<Seq<char>>, known: Seq<Seq<char>>, d: Seq<char>)
    ensures
        missing(list, known).contains(d) <==> list.contains(d) && !known.contains(d),
    decreases list.len(),
{
    if list.len() > 0 {
        let front = list.drop_last();
        missing_ones(front, known, d);
        let m = missing(front, known);
        let last = list.last();
        if front.contains(d) {
            assert(list[front.index_of(d)] == d);
        }
        assert(list[list.len() - 1] == last);
        if list.contains(d) && d != last {
            assert(front[list.index_of(d)] == d);
        }
        if m.contains(d) {
            assert(m.push(last)[m.index_of(d)] == d);
        }
        assert(m.push(last)[m.len() as int] == last);
        if m.push(last).contains(d) && d != last {
            assert(m[m.push(last).index_of(d)] == d);
        }
    }
}

proof fn kept_kinds(v: Seq<(Seq<char>, DriveKind)>, list: Seq<Seq<char>>, d: Seq<char>)
    ensures
        kind_roots(kinds_within(v, list)).contains(d) <==> kind_roots(v).contains(d)
            && list.contains(d),
    decreases v.len(),
{
    if v.len() > 0 {
        let front = v.drop_last();
        kept_kinds(front, list, d);
        let m = kinds_within(front, list);
        assert(kind_roots(v) =~= kind_roots(front).push(v.last().0));
        assert(kind_roots(m.push(v.last())) =~= kind_roots(m).push(v.last().0));
        in_pushed(kind_roots(front), v.last().0, d);
        in_pushed(kind_roots(m), v.last().0, d);
    }
}

proof fn kept_infos(v: Seq<InfoView>, list: Seq<Seq<char>>, d: Seq<char>)
    ensures
        info_roots(infos_within(v, list)).contains(d) <==> info_roots(v).contains(d)
            && list.contains(d),
    decreases v.len(),
{
    if v.len() > 0 {
        let front = v.drop_last();
        kept_infos(front, list, d);
        let m = infos_within(front, list);
        assert(info_roots(v) =~= info_roots(front).push(v.last().drive));
        assert(info_roots(m.push(v.last())) =~= info_roots(m).push(v.last().drive));
        in_pushed(info_roots(front), v.last().drive, d);
        in_pushed(info_roots(m), v.last().drive, d);
    }
}

proof fn in_pushed(list: Seq<Seq<char>>, last: Seq<char>, d: Seq<char>)
    ensures
        list.push(last).contains(d) <==> list.contains(d) || d == last,
{
    if list.contains(d) {
        assert(list.push(last)[list.index_of(d)] == d);
    }
    assert(list.push(last)[list.len() as int] == last);
    if list.push(last).contains(d) && d != last {
        assert(list[list.push(last).index_of(d)] == d);
    }
}

proof fn in_joined(a: Seq<Seq<char>>, b: Seq<Seq<char>>, d: Seq<char>)
    ensures
        (a + b).contains(d) <==> a.contains(d) || b.contains(d),
{
    if a.contains(d) {
        assert((a + b)[a.index_of(d)] == d);
    }
    if b.contains(d) {
        assert((a + b)[a.len() + b.index_of(d)] == d);
    }
    if (a + b).contains(d) {
        let k = (a + b).index_of(d);
        if k < a.len() {
            assert(a[k] == d);
        } else {
            assert(b[k - a.len()] == d);
        }
    }
}

proof fn roots_joined(
    a: Seq<(Seq<char>, DriveKind)>,
    b: Seq<(Seq<char>, DriveKind)>,
    d: Seq<char>,
)
    ensures
        kind_roots(a + b).contains(d) <==> kind_roots(a).contains(d) || kind_roots(b).contains(d),
{
    assert(kind_roots(a + b) =~= kind_roots(a) + kind_roots(b));
    in_joined(kind_roots(a), kind_roots(b), d);
}

proof fn info_roots_joined(a: Seq<InfoView>, b: Seq<InfoView>, d: Seq<char>)
    ensures
        info_roots(a + b).contains(d) <==> info_roots(a).contains(d) || info_roots(b).contains(d),
{
    assert(info_roots(a + b) =~= info_roots(a) + info_roots(b));
    in_joined(info_roots(a), info_roots(b), d);
}

// ---------------------------------------------------------------------------
// Drives as they are shown
// ---------------------------------------------------------------------------

/// The label of a drive: its root without the separators at its end.
pub fn drive_label(root: &str) -> (r: String)
    ensures
        r@ == without_separators(root@),
{
    strip_separators(root)
}

/// Whether the folder that is shown lies on the drive with the given root.
pub fn is_current_drive(shown: &str, root: &str) -> (r: bool)
    ensures
        r == begins_with(shown@, root@),
{
    has_prefix(shown, root)
}

/// The used space of a drive.
pub fn used_bytes(info: &DriveInfo) -> (r: u64)
    ensures
        r == if info.free_bytes <= info.total_bytes {
            info.total_bytes - info.free_bytes
        } else {
            0
        },
{
    if info.free_bytes <= info.total_bytes {
        info.total_bytes - info.free_bytes
    } else {
        0
    }
}

/// What is said of the space of a drive, from its free and its whole space in words.
pub fn space_text(info: &DriveInfo, free: &str, total: &str) -> (r: String)
    ensures
        r@ == if info.total_bytes > 0 {
            free@ + " free  /  "@ + total@ + " total"@
        } else {
            "No media"@
        },
{
    if info.total_bytes > 0 {
        joined(joined(joined(free, " free  /  ").as_str(), total).as_str(), " total")
    } else {
        copy_text("No media")
    }
}

// ---------------------------------------------------------------------------
// What is listed and what is known
// ---------------------------------------------------------------------------

/// Each drive that is there is listed by the root of its letter, in the order of the letters.
pub proof fn drives_are_listed_by_letter(present: Seq<bool>, there: bool)
    requires
        present.len() < 26,
    ensures
        present_roots(present.push(there)) == if there {
            present_roots(present).push(
                seq![(0x41 + present.len()) as u8 as char, ':', '\\'],
            )
        } else {
            present_roots(present)
        },
        present_roots(Seq::empty()).len() == 0,
{
    assert(present.push(there).drop_last() =~= present);
}

/// A path on a drive lies on the drive whose root is its letter, a colon and a backslash.
pub proof fn a_path_lies_on_the_drive_of_its_letter(p: PathView, b: u8)
    requires
        p.prefix == crate::paths::PrefixView::Disk(b),
    ensures
        first_component(p) matches Some(c) && with_backslash(c) == seq![b as char, ':', '\\'],
{
    let c = first_component(p)->0;
    assert(with_backslash(c) =~= seq![b as char, ':', '\\']);
}

/// Solid-state drives, discs and drives of no known kind never make a folder wait; hard disks,
/// removable drives and drives of the network may.
pub proof fn only_drives_that_spin_or_connect_may_sleep(kind: DriveKind)
    ensures
        may_sleep(kind) <==> kind != DriveKind::Ssd && kind != DriveKind::CdRom && kind
            != DriveKind::Unknown,
{
}

/// A fixed drive is a solid-state drive only where the system says so, and a removable one where it
/// hangs on the bus for such drives; what the system calls otherwise does not depend on either.
pub proof fn a_fixed_drive_spins_unless_it_is_known_not_to(
    bus: Option<u32>,
    other: Option<u32>,
    ssd: Option<bool>,
    code: u32,
)
    ensures
        drive_kind(3, Some(7), ssd) == DriveKind::Removable,
        bus != Some(7u32) ==> drive_kind(3, bus, Some(true)) == DriveKind::Ssd,
        bus != Some(7u32) && ssd != Some(true) ==> drive_kind(3, bus, ssd) == DriveKind::Hdd,
        code != 3 ==> drive_kind(code, bus, ssd) == drive_kind(code, other, None),
        code != 3 ==> drive_kind(code, bus, ssd) != DriveKind::Ssd && drive_kind(code, bus, ssd)
            != DriveKind::Hdd,
{
}

/// The kind of a drive is the first one that is noted for its root, and unknown where none is.
pub proof fn the_first_note_tells_the_kind(
    before: Seq<(Seq<char>, DriveKind)>,
    root: Seq<char>,
    kind: DriveKind,
    behind: Seq<(Seq<char>, DriveKind)>,
)
    requires
        forall|i: int| 0 <= i < before.len() ==> (#[trigger] before[i]).0 != root,
    ensures
        known_kind(before + seq![(root, kind)] + behind, root) == kind,
        known_kind(before, root) == DriveKind::Unknown,
    decreases before.len(),
{
    let all = before + seq![(root, kind)] + behind;
    if before.len() > 0 {
        let rest = before.drop_first();
        assert forall|i: int| 0 <= i < rest.len() implies (#[trigger] rest[i]).0 != root by {
            assert(rest[i] == before[i + 1]);
        }
        the_first_note_tells_the_kind(rest, root, kind, behind);
        assert(all[0] == before[0]);
        assert(before[0].0 != root);
        assert(all.drop_first() =~= rest + seq![(root, kind)] + behind);
    } else {
        assert(all[0] == (root, kind));
    }
}

/// What is known of a drive stays known as long as the drive is there, and is forgotten once it is
/// gone; a drive that is new is asked about.
pub proof fn what_is_known_of_a_drive_stays(
    t: TableView,
    current: Seq<Seq<char>>,
    i: int,
    d: Seq<char>,
)
    requires
        t.available != current,
    ensures
        t.rescanned(current).available == current,
        0 <= i < t.kinds.len() && current.contains(t.kinds[i].0) ==> t.rescanned(
            current,
        ).kinds.contains(t.kinds[i]),
        0 <= i < t.infos.len() && current.contains(t.infos[i].drive) ==> t.rescanned(
            current,
        ).infos.contains(t.infos[i]),
        !current.contains(d) ==> !kind_roots(t.rescanned(current).kinds).contains(d)
            && !info_roots(t.rescanned(current).infos).contains(d),
        t.unclassified(current).contains(d) <==> current.contains(d) && !kind_roots(
            t.kinds,
        ).contains(d),
        t.unmeasured(current).contains(d) <==> current.contains(d) && !info_roots(
            t.infos,
        ).contains(d),
{
    missing_ones(current, kind_roots(t.kinds), d);
    missing_ones(current, info_roots(t.infos), d);
    kept_kinds(t.kinds, current, d);
    kept_infos(t.infos, current, d);
    if 0 <= i < t.kinds.len() && current.contains(t.kinds[i].0) {
        kept_kind(t.kinds, current, i);
    }
    if 0 <= i < t.infos.len() && current.contains(t.infos[i].drive) {
        kept_info(t.infos, current, i);
    }
}

/// Where the same drives are there as before, nothing changes and nothing is asked.
pub proof fn the_same_drives_ask_nothing(t: TableView)
    ensures
        t.rescanned(t.available) == t,
        t.unclassified(t.available).len() == 0,
        t.unmeasured(t.available).len() == 0,
{
}

proof fn kept_kind(v: Seq<(Seq<char>, DriveKind)>, list: Seq<Seq<char>>, i: int)
    requires
        0 <= i < v.len(),
        list.contains(v[i].0),
    ensures
        kinds_within(v, list).contains(v[i]),
    decreases v.len(),
{
    let front = kinds_within(v.drop_last(), list);
    if i < v.len() - 1 {
        kept_kind(v.drop_last(), list, i);
        let k = front.index_of(v[i]);
        assert(kinds_within(v, list)[k] == v[i]);
    } else {
        assert(kinds_within(v, list)[front.len() as int] == v[i]);
    }
}

proof fn kept_info(v: Seq<InfoView>, list: Seq<Seq<char>>, i: int)
    requires
        0 <= i < v.len(),
        list.contains(v[i].drive),
    ensures
        infos_within(v, list).contains(v[i]),
    decreases v.len(),
{
    let front = infos_within(v.drop_last(), list);
    if i < v.len() - 1 {
        kept_info(v.drop_last(), list, i);
        let k = front.index_of(v[i]);
        assert(infos_within(v, list)[k] == v[i]);
    } else {
        assert(infos_within(v, list)[front.len() as int] == v[i]);
    }
}

/// What the system calls removable, of the network or a disc is that, whatever else is known of it;
/// what it calls otherwise, and no fixed drive, is of no known kind.
pub proof fn the_system_tells_the_kind(code: u32, bus: Option<u32>, ssd: Option<bool>)
    ensures
        drive_kind(2, bus, ssd) == DriveKind::Removable,
        drive_kind(4, bus, ssd) == DriveKind::Network,
        drive_kind(5, bus, ssd) == DriveKind::CdRom,
        code < 2 || code > 5 ==> drive_kind(code, bus, ssd) == DriveKind::Unknown,
{
}

} // verus!
