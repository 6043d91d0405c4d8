//! Where a text that was typed leads from a folder.
use crate::paths::{FsPath, PathPrefix, PathView, PrefixView};
use crate::spelling::{a_path_is_written_as_it_was_given, filler, filler_is_inside, found};
use crate::text::{begins_with, char_lists, chars_of, first_position, first_position_holds, pieces};
use crate::text::{copy_text, replace_char, split_at_each, text_between, text_of, texts};
use crate::text::with_replaced;
use vstd::prelude::*;
use vstd::string::StringExecFns;

verus! {

/// A text with a slash for each separator. Only where paths are written with slashes a backslash
/// is none.
pub open spec fn with_slashes(text: Seq<char>, prefix: PrefixView) -> Seq<char> {
    if prefix is Unix {
        text
    } else {
        with_replaced(text, '\\', '/')
    }
}

/// Whether a piece of a text between two slashes leads on: an empty one and a single dot do not.
pub open spec fn leads_on(piece: Seq<char>) -> bool {
    piece.len() > 0 && piece != seq!['.']
}

/// Those of `list` that lead on.
pub open spec fn leading_on(list: Seq<Seq<char>>) -> Seq<Seq<char>>
    decreases list.len(),
{
    if list.len() == 0 {
        Seq::empty()
    } else if leads_on(list.last()) {
        leading_on(list.drop_last()).push(list.last())
    } else {
        leading_on(list.drop_last())
    }
}

/// The names in a text with slashes.
pub open spec fn names_in(s: Seq<char>) -> Seq<Seq<char>> {
    leading_on(pieces(s, '/'))
}

/// Whether `c` is a letter of the alphabet.
pub open spec fn is_letter(c: char) -> bool {
    'a' <= c <= 'z' || 'A' <= c <= 'Z'
}

/// The byte of a letter, as a capital.
pub open spec fn capital_byte(c: char) -> u8 {
    if 'a' <= c <= 'z' {
        (c as u8 - 32) as u8
    } else {
        c as u8
    }
}

/// Whether a text with slashes begins with a drive.
pub open spec fn begins_with_drive(s: Seq<char>) -> bool {
    s.len() >= 2 && is_letter(s[0]) && s[1] == ':'
}

/// Whether a text with slashes begins with a server and its share: they stand behind two slashes,
/// with one between them.
pub open spec fn begins_with_share(s: Seq<char>) -> bool {
    let p = pieces(s, '/');
    p.len() >= 4 && p[0].len() == 0 && p[1].len() == 0 && p[2].len() > 0 && p[3].len() > 0
}

/// How many characters the server and its share take.
pub open spec fn share_length(s: Seq<char>) -> nat {
    3 + pieces(s, '/')[2].len() + pieces(s, '/')[3].len()
}

/// Where a text leads from `dir`, and how that is written: to a drive or a share where it begins
/// with one, which it does only where paths are written with backslashes; to the root where it
/// begins with a separator; and down from `dir` otherwise.
pub open spec fn led_to(dir: PathView, text: Seq<char>) -> PathView {
    let s = with_slashes(text, dir.prefix);
    let names = names_in(s);
    if dir.prefix !is Unix && begins_with_drive(s) {
        (PathView {
            prefix: PrefixView::Disk(capital_byte(s[0])),
            rooted: s.len() > 2 && s[2] == '/',
            names: names_in(s.skip(2)),
            spelling: None,
        }).written_as(text)
    } else if dir.prefix !is Unix && begins_with_share(s) {
        (PathView {
            prefix: PrefixView::Other(with_replaced(s.take(share_length(s) as int), '/', '\\')),
            rooted: true,
            names: leading_on(pieces(s, '/').skip(4)),
            spelling: None,
        }).written_as(text)
    } else if s.len() > 0 && s[0] == '/' {
        (PathView { rooted: true, names, ..dir }).written_as(dir.lead() + text)
    } else {
        (PathView { names: dir.names + names, ..dir }).written_as(
            dir.body() + dir.next_gap() + text,
        )
    }
}

/// Whether a text is one name and nothing else, wherever it is typed.
pub open spec fn is_one_name(text: Seq<char>) -> bool {
    text.len() > 0 && text != seq!['.'] && forall|i: int|
        0 <= i < text.len() ==> #[trigger] text[i] != '/' && text[i] != '\\' && text[i] != ':'
}

impl PathView {
    /// Where a text that was typed leads from this path: to the entry of that name where it is
    /// one name.
    pub open spec fn join_text(self, text: Seq<char>) -> PathView {
        if is_one_name(text) {
            self.join(text)
        } else {
            led_to(self, text)
        }
    }
}

/// Whether a text is one name and nothing else.
fn names_one_entry(v: &Vec<char>) -> (r: bool)
    ensures
        r == is_one_name(v@),
{
    if v.len() == 0 {
        return false;
    }
    if v.len() == 1 && v[0] == '.' {
        assert(v@ =~= seq!['.']);
        return false;
    }
    for i in 0..v.len()
        invariant
            forall|k: int|
                0 <= k < i ==> #[trigger] v@[k] != '/' && v@[k] != '\\' && v@[k] != ':',
    {
        if v[i] == '/' || v[i] == '\\' || v[i] == ':' {
            return false;
        }
    }
    true
}

/// Those of a list of pieces, from position `from` on, that lead on.
fn keep_leading(list: &Vec<Vec<char>>, from: usize) -> (r: Vec<String>)
    requires
        from <= list@.len(),
    ensures
        texts(r@) == leading_on(char_lists(list@).skip(from as int)),
{
    let ghost all = char_lists(list@).skip(from as int);
    let mut r: Vec<String> = Vec::new();
    assert(texts(r@) =~= leading_on(all.take(0)));
    for i in from..list.len()
        invariant
            from <= list@.len(),
            all == char_lists(list@).skip(from as int),
            texts(r@) == leading_on(all.take(i - from)),
    {
        let piece = &list[i];
        assert(all[i - from] == piece@);
        assert(all.take(i - from + 1).drop_last() =~= all.take(i - from));
        assert(piece@.len() == 1 && piece@[0] == '.' ==> piece@ =~= seq!['.']);
        if piece.len() > 0 && !(piece.len() == 1 && piece[0] == '.') {
            let ghost before = texts(r@);
            r.push(text_of(piece));
            assert(texts(r@) =~= before.push(piece@));
        }
    }
    assert(all.take(list@.len() - from) =~= all);
    r
}

/// The names in a text with slashes, from position `from` on.
fn read_names(v: &Vec<char>, from: usize) -> (r: Vec<String>)
    requires
        from <= v@.len(),
    ensures
        texts(r@) == names_in(v@.skip(from as int)),
{
    let mut rest: Vec<char> = Vec::new();
    for i in from..v.len()
        invariant
            from <= v@.len(),
            rest@ == v@.subrange(from as int, i as int),
    {
        rest.push(v[i]);
    }
    assert(rest@ =~= v@.skip(from as int));
    let list = split_at_each(&rest, '/');
    let ghost all = char_lists(list@);
    assert(all.skip(0) =~= all);
    keep_leading(&list, 0)
}

/// The pieces between the slashes of a text take up no more than the text.
proof fn pieces_fit(s: Seq<char>, k: int)
    requires
        0 <= k < pieces(s, '/').len(),
    ensures
        pieces(s, '/')[k].len() + k <= s.len(),
        k >= 1 ==> pieces(s, '/')[k].len() + pieces(s, '/')[k - 1].len() + k <= s.len(),
    decreases s.len(),
{
    first_position_holds(s, '/');
    let i = first_position(s, '/');
    if 0 <= i < s.len() {
        let rest = s.skip(i + 1);
        let p = pieces(rest, '/');
        assert(pieces(s, '/') =~= seq![s.take(i)] + p);
        if k >= 1 {
            pieces_fit(rest, k - 1);
            assert(pieces(s, '/')[k] == p[k - 1]);
            if k >= 2 {
                assert(pieces(s, '/')[k - 1] == p[k - 2]);
            }
        }
    }
}

/// The drive that a text begins with.
fn drive_in(v: &Vec<char>) -> (r: Option<u8>)
    ensures
        match r {
            Some(b) => begins_with_drive(v@) && b == capital_byte(v@[0]),
            None => !begins_with_drive(v@),
        },
{
    if v.len() >= 2 && v[1] == ':' {
        let c: char = v[0];
        if 'a' <= c && c <= 'z' {
            return Some(c as u8 - 32);
        }
        if 'A' <= c && c <= 'Z' {
            return Some(c as u8);
        }
    }
    None
}

impl FsPath {
    /// Where a text that was typed leads from this path.
    pub fn join_text(&self, text: &str) -> (r: FsPath)
        ensures
            r@ == self@.join_text(text@),
    {
        let typed = chars_of(text);
        if names_one_entry(&typed) {
            return self.join(text);
        }
        let unix = match &self.prefix {
            PathPrefix::Unix => true,
            _ => false,
        };
        let plain = if unix {
            copy_text(text)
        } else {
            replace_char(text, '\\', '/')
        };
        let v = chars_of(plain.as_str());
        let ghost s = with_slashes(text@, self@.prefix);
        assert(v@ == s);
        if !unix {
            match drive_in(&v) {
                Some(drive) => {
                    let names = read_names(&v, 2);
                    let rooted = v.len() > 2 && v[2] == '/';
                    return FsPath::plain(PathPrefix::Disk(drive), rooted, names).written_as(text);
                },
                None => {},
            }
            let list = split_at_each(&v, '/');
            let ghost p = char_lists(list@);
            if list.len() >= 4 && list[0].len() == 0 && list[1].len() == 0 && list[2].len() > 0
                && list[3].len() > 0 {
                proof {
                    assert(p[2].len() == list@[2]@.len() && p[3].len() == list@[3]@.len());
                    pieces_fit(s, 3);
                }
                let n: usize = 3 + list[2].len() + list[3].len();
                let given = text_between(&v, 0, n);
                assert(given@ =~= s.take(n as int));
                let share = replace_char(given.as_str(), '/', '\\');
                let names = keep_leading(&list, 4);
                return FsPath::plain(PathPrefix::Other(share), true, names).written_as(text);
            }
            assert(!begins_with_share(s)) by {
                if p.len() >= 4 {
                    assert(p[0] == list@[0]@ && p[1] == list@[1]@ && p[2] == list@[2]@ && p[3]
                        == list@[3]@);
                }
            }
        }
        let names = read_names(&v, 0);
        assert(s.skip(0) =~= s);
        let ghost all = texts(names@);
        if v.len() > 0 && v[0] == '/' {
            let mut given = self.lead();
            given.append(text);
            let at = FsPath {
                prefix: self.prefix.copy(),
                rooted: true,
                names,
                spelling: self.copy().spelling,
            };
            return at.written_as(given.as_str());
        }
        let mut given = self.body();
        given.append(self.next_gap().as_str());
        given.append(text);
        let mut r = self.copy();
        let ghost start = r@.names;
        assert(start + all.take(0) =~= start);
        for i in 0..names.len()
            invariant
                all == texts(names@),
                r@ == (PathView { names: start + all.take(i as int), ..self@ }),
        {
            let ghost before = texts(r.names@);
            r.names.push(copy_text(names[i].as_str()));
            assert(texts(r.names@) =~= before.push(all[i as int]));
            assert(r@.names =~= start + all.take(i + 1));
        }
        assert(all.take(all.len() as int) =~= all);
        r.written_as(given.as_str())
    }
}

/// A name leads to the entry of that name in the folder that it is typed in.
pub proof fn a_name_stays_in_its_folder(dir: PathView, name: Seq<char>)
    requires
        is_one_name(name),
    ensures
        dir.join_text(name) == dir.join(name),
        dir.join_text(name).lies_in(dir),
{
    crate::paths::entry_lies_in_directory(dir, name);
}

// ---------------------------------------------------------------------------
// Typed texts are kept
// ---------------------------------------------------------------------------

impl PathView {
    /// Whether a text says where this path leads: it begins with the prefix and goes on with the
    /// names.
    pub open spec fn is_said_by(self, text: Seq<char>) -> bool {
        self.prefix.begins(text) && self.names == names_in(
            with_slashes(text.skip(self.prefix.written().len() as int), self.prefix),
        )
    }

    /// Whether the path is written as a text that says where it leads.
    pub open spec fn is_well_written(self) -> bool {
        &&& self.is_said_by(self.written())
        &&& self.lead().len() == self.prefix.written().len()
        &&& self.root_mark().len() == 0 || self.root_mark() == self.mark_in(self.written())
    }
}

/// What leads on in two lists leads on in the one behind the other.
proof fn leading_on_splits(a: Seq<Seq<char>>, b: Seq<Seq<char>>)
    ensures
        leading_on(a + b) == leading_on(a) + leading_on(b),
    decreases b.len(),
{
    if b.len() == 0 {
        assert(a + b =~= a);
        assert(leading_on(a) + leading_on(b) =~= leading_on(a));
    } else {
        leading_on_splits(a, b.drop_last());
        assert((a + b).drop_last() =~= a + b.drop_last());
        assert((a + b).last() == b.last());
        assert(leading_on(a + b) =~= leading_on(a) + leading_on(b));
    }
}

/// A single piece leads on by itself.
proof fn one_piece(p: Seq<char>)
    ensures
        leading_on(seq![p]) == if leads_on(p) {
            seq![p]
        } else {
            Seq::empty()
        },
{
    reveal_with_fuel(leading_on, 2);
    assert(seq![p].drop_last() =~= Seq::<Seq<char>>::empty());
    assert(Seq::<Seq<char>>::empty().push(p) =~= seq![p]);
}

/// All that is left of a list leads on.
proof fn what_is_left_leads_on(list: Seq<Seq<char>>, k: int)
    requires
        0 <= k < leading_on(list).len(),
    ensures
        leads_on(leading_on(list)[k]),
    decreases list.len(),
{
    if list.len() > 0 {
        if k < leading_on(list.drop_last()).len() {
            what_is_left_leads_on(list.drop_last(), k);
        }
    }
}

/// The names in a text: the first piece, where that leads on, and those behind it.
proof fn first_name(s: Seq<char>)
    ensures
        ({
            let i = first_position(s, '/');
            let behind = if i < s.len() {
                names_in(s.skip(i + 1))
            } else {
                Seq::empty()
            };
            names_in(s) == if leads_on(s.take(i)) {
                seq![s.take(i)] + behind
            } else {
                behind
            }
        }),
{
    first_position_holds(s, '/');
    let i = first_position(s, '/');
    one_piece(s.take(i));
    if i < s.len() {
        let behind = pieces(s.skip(i + 1), '/');
        leading_on_splits(seq![s.take(i)], behind);
        assert(Seq::<Seq<char>>::empty() + names_in(s.skip(i + 1)) =~= names_in(s.skip(i + 1)));
    } else {
        assert(s.take(i) =~= s);
        assert(seq![s] + Seq::<Seq<char>>::empty() =~= seq![s]);
    }
}

/// The names around a slash are those before it and those behind it.
proof fn names_around_a_slash(x: Seq<char>, y: Seq<char>)
    ensures
        names_in(x + seq!['/'] + y) == names_in(x) + names_in(y),
    decreases x.len(),
{
    let s = x + seq!['/'] + y;
    first_position_holds(x, '/');
    first_position_holds(s, '/');
    let i = first_position(x, '/');
    assert(s[x.len() as int] == '/');
    assert(forall|k: int| 0 <= k < x.len() ==> s[k] == x[k]);
    assert(first_position(s, '/') == i);
    first_name(x);
    first_name(s);
    assert(s.take(i) =~= x.take(i));
    if i < x.len() {
        names_around_a_slash(x.skip(i + 1), y);
        assert(s.skip(i + 1) =~= x.skip(i + 1) + seq!['/'] + y);
    } else {
        assert(s.skip(i + 1) =~= y);
    }
    assert(names_in(s) =~= names_in(x) + names_in(y));
}

/// Names that are found in a text are found behind a character that leads nowhere.
proof fn found_behind_filler(names: Seq<Seq<char>>, rest: Seq<char>, prefix: PrefixView)
    requires
        rest.len() > 0,
        prefix.separates(rest[0]) || (rest[0] == '.' && (rest.len() == 1 || prefix.separates(
            rest[1],
        ))),
        names.len() > 0 ==> names[0] != seq!['.'],
        found(names, rest.skip(1), prefix) is Some,
    ensures
        found(names, rest, prefix) is Some,
{
    if names.len() > 0 {
        let f = filler(rest.skip(1), prefix) as int;
        filler_is_inside(rest.skip(1), prefix);
        assert(rest.skip(1).skip(f) =~= rest.skip(1 + f));
    }
}

/// The names in a text are found in it.
proof fn names_are_found(rest: Seq<char>, prefix: PrefixView)
    ensures
        found(names_in(with_slashes(rest, prefix)), rest, prefix) is Some,
    decreases rest.len(),
{
    let s = with_slashes(rest, prefix);
    assert(forall|k: int| 0 <= k < rest.len() ==> (s[k] == '/' <==> prefix.separates(rest[k])));
    assert(forall|k: int| 0 <= k < rest.len() && s[k] != '/' ==> s[k] == rest[k]);
    first_position_holds(s, '/');
    let i = first_position(s, '/');
    let piece = s.take(i);
    assert(piece =~= rest.take(i));
    first_name(s);
    let behind = if i < s.len() {
        names_in(s.skip(i + 1))
    } else {
        Seq::empty()
    };
    if behind.len() > 0 {
        what_is_left_leads_on(pieces(s.skip(i + 1), '/'), 0);
    }
    if i < s.len() {
        names_are_found(rest.skip(i + 1), prefix);
        assert(with_slashes(rest.skip(i + 1), prefix) =~= s.skip(i + 1));
        assert(rest.skip(i).skip(1) =~= rest.skip(i + 1));
        found_behind_filler(behind, rest.skip(i), prefix);
    }
    assert(found(behind, rest.skip(i), prefix) is Some);
    if i == 0 {
        assert(rest.skip(0) =~= rest);
    } else if piece == seq!['.'] {
        assert(rest[0] == piece[0]);
        found_behind_filler(behind, rest, prefix);
    } else {
        let names = names_in(s);
        assert(names.drop_first() =~= behind);
        assert(rest[0] == '.' && i == 1 ==> piece =~= seq!['.']);
        assert(filler(rest, prefix) == 0);
        assert(rest.skip(0) =~= rest);
        assert(begins_with(rest, piece)) by {
            assert(rest.subrange(0, piece.len() as int) =~= piece);
        }
    }
}

/// A text that says where a path leads is kept as it is.
pub proof fn a_text_that_says_where_is_kept(p: PathView, text: Seq<char>)
    requires
        p.is_said_by(text),
    ensures
        p.written_as(text).written() == text,
        p.written_as(text).is_same(p),
        p.written_as(text).is_well_written(),
{
    let n = p.prefix.written().len() as int;
    let rest = text.skip(n);
    let mark = p.mark_in(text);
    if mark.len() > 0 {
        let s = with_slashes(rest, p.prefix);
        first_name(s);
        assert(s[0] == '/');
        assert(with_slashes(rest.skip(1), p.prefix) =~= s.skip(1));
        names_are_found(rest.skip(1), p.prefix);
        assert(rest.skip(1) =~= text.skip(n + 1));
    } else {
        names_are_found(rest, p.prefix);
    }
    a_path_is_written_as_it_was_given(p, text);
    let r = p.written_as(text);
    if r.spelling is None {
        let usual = p.usual();
        assert(usual.written().skip(n) =~= usual.root_mark() + usual.written_names(
            usual.names.len(),
        ));
        if p.rooted {
            assert(rest[0] == p.prefix.separator());
            assert(mark =~= usual.root_mark());
        }
    }
}

/// What is written before a text that is typed in `dir`: nothing before a drive or a share, the
/// prefix before a path from the root, and the folder with a separator before all others.
pub open spec fn put_before(dir: PathView, text: Seq<char>) -> Seq<char> {
    let s = with_slashes(text, dir.prefix);
    if dir.prefix !is Unix && (begins_with_drive(s) || begins_with_share(s)) {
        Seq::empty()
    } else if s.len() > 0 && s[0] == '/' {
        dir.lead()
    } else {
        dir.body() + dir.next_gap()
    }
}

/// A text behind a folder and a separator says that it leads down from that folder.
proof fn what_leads_down(dir: PathView, text: Seq<char>)
    requires
        dir.is_well_written(),
    ensures
        (PathView { names: dir.names + names_in(with_slashes(text, dir.prefix)), ..dir }).is_said_by(
            dir.body() + dir.next_gap() + text,
        ),
{
    let n = dir.prefix.written().len() as int;
    let w = dir.written();
    let all = dir.body() + dir.next_gap() + text;
    let s = with_slashes(text, dir.prefix);
    let known = with_slashes(w.skip(n), dir.prefix);
    let tail = dir.tail();
    let separator = dir.prefix.separator();
    assert(forall|k: int| 0 <= k < n ==> all[k] == w[k]);
    if tail.len() > 0 && dir.prefix.separates(tail.last()) {
        let x = known.drop_last();
        assert(all =~= w + text);
        assert(known =~= x + seq!['/'] + Seq::<char>::empty());
        names_around_a_slash(x, Seq::empty());
        first_name(Seq::empty());
        names_around_a_slash(x, s);
        assert(with_slashes(all.skip(n), dir.prefix) =~= x + seq!['/'] + s);
        assert(names_in(x) + Seq::<Seq<char>>::empty() =~= names_in(x));
    } else if dir.next_gap().len() > 0 {
        assert(all =~= w + seq![separator] + text);
        assert(with_slashes(all.skip(n), dir.prefix) =~= known + seq!['/'] + s);
        names_around_a_slash(known, s);
    } else {
        assert(dir.written_names(0) =~= Seq::empty());
        assert(w.skip(n) =~= dir.root_mark());
        assert(dir.names + names_in(s) =~= names_in(s));
        if dir.root_mark().len() == 0 {
            assert(all.skip(n) =~= text);
        } else {
            let x = Seq::<char>::empty();
            assert(with_slashes(all.skip(n), dir.prefix) =~= x + seq!['/'] + s);
            names_around_a_slash(x, s);
            first_name(x);
            assert(names_in(x) + names_in(s) =~= names_in(s));
        }
    }
}

/// The names of a folder are written in the same way before an entry of it.
proof fn names_before_an_entry(dir: PathView, name: Seq<char>, k: nat)
    requires
        k <= dir.names.len(),
    ensures
        dir.join(name).written_names(k) == dir.written_names(k),
    decreases k,
{
    if k > 0 {
        names_before_an_entry(dir, name, (k - 1) as nat);
        assert(dir.join(name).gap(k - 1) == dir.gap(k - 1));
        assert(dir.join(name).names[k - 1] == dir.names[k - 1]);
    }
}

/// An entry is written behind its folder and a separator.
proof fn an_entry_is_written_behind_its_folder(dir: PathView, name: Seq<char>)
    requires
        dir.is_well_written(),
        is_one_name(name),
    ensures
        dir.join(name).written() == dir.body() + dir.next_gap() + name,
        dir.join(name).is_well_written(),
{
    let r = dir.join(name);
    let n = dir.names.len();
    let all = dir.body() + dir.next_gap() + name;
    names_before_an_entry(dir, name, n);
    assert(r.gap(n as int) == dir.next_gap());
    assert(r.names[n as int] == name);
    assert(r.written() =~= all);
    let s = with_slashes(name, dir.prefix);
    assert(s =~= name);
    first_position_holds(s, '/');
    assert(s.take(s.len() as int) =~= s);
    first_name(s);
    assert(names_in(s) =~= seq![name]);
    assert(dir.names + seq![name] =~= r.names);
    what_leads_down(dir, name);
    assert(r.root_mark() == dir.root_mark());
    if dir.root_mark().len() > 0 {
        let at = dir.prefix.written().len() as int;
        assert(dir.written().skip(at)[0] == dir.root_mark()[0]);
        assert(all.skip(at)[0] == dir.root_mark()[0]);
        assert(r.mark_in(all) =~= dir.mark_in(dir.written()));
    }
}

/// The pieces behind the first one are those of the text behind the first slash.
proof fn pieces_behind(s: Seq<char>)
    requires
        pieces(s, '/').len() > 1,
    ensures
        pieces(s, '/')[0].len() < s.len(),
        pieces(s, '/').skip(1) == pieces(s.skip(1 + pieces(s, '/')[0].len() as int), '/'),
{
    first_position_holds(s, '/');
    let i = first_position(s, '/');
    let behind = pieces(s.skip(i + 1), '/');
    assert(pieces(s, '/') =~= seq![s.take(i)] + behind);
    assert(pieces(s, '/').skip(1) =~= behind);
}

/// What stands behind a server and its share.
proof fn names_behind_a_share(s: Seq<char>)
    requires
        begins_with_share(s),
    ensures
        share_length(s) <= s.len(),
        leading_on(pieces(s, '/').skip(4)) == names_in(s.skip(share_length(s) as int)),
{
    let p = pieces(s, '/');
    let n = share_length(s) as int;
    pieces_behind(s);
    let s1 = s.skip(1);
    assert(pieces(s1, '/').len() == p.len() - 1);
    pieces_behind(s1);
    let s2 = s1.skip(1);
    assert(s2 =~= s.skip(2));
    assert(pieces(s2, '/') =~= p.skip(2));
    pieces_behind(s2);
    let s3 = s2.skip(1 + p[2].len() as int);
    assert(s3 =~= s.skip(3 + p[2].len() as int));
    assert(pieces(s3, '/') =~= p.skip(3));
    assert(pieces(s3, '/')[0] == p[3]);
    first_position_holds(s3, '/');
    let i = first_position(s3, '/');
    let rest = s.skip(n);
    assert(p[3].len() == i);
    assert(rest =~= s3.skip(i));
    first_name(rest);
    if i < s3.len() {
        let behind = pieces(s3.skip(i + 1), '/');
        assert(pieces(s3, '/') =~= seq![s3.take(i)] + behind);
        assert(p.skip(4) =~= behind);
        assert(rest[0] == '/');
        assert(rest.skip(1) =~= s3.skip(i + 1));
    } else {
        assert(p.skip(4) =~= Seq::empty());
        assert(rest.len() == 0);
        assert(names_in(rest) =~= Seq::empty());
    }
}

/// What is typed is kept as it was typed, behind the folder that it is typed in where it leads on
/// from there.
pub proof fn what_is_typed_is_kept(dir: PathView, text: Seq<char>)
    requires
        dir.is_well_written(),
    ensures
        dir.join_text(text).written() == put_before(dir, text) + text,
        dir.join_text(text).is_well_written(),
{
    let s = with_slashes(text, dir.prefix);
    let names = names_in(s);
    let bare = Seq::<char>::empty();
    if is_one_name(text) {
        an_entry_is_written_behind_its_folder(dir, text);
        assert(s =~= text);
        if dir.prefix !is Unix && begins_with_share(s) {
            pieces_behind(s);
            first_position_holds(s, '/');
        }
    } else if dir.prefix !is Unix && begins_with_drive(s) {
        let p = PathView {
            prefix: PrefixView::Disk(capital_byte(s[0])),
            rooted: s.len() > 2 && s[2] == '/',
            names: names_in(s.skip(2)),
            spelling: None,
        };
        assert(text[0] == s[0] && text[1] == s[1]);
        assert(with_slashes(text.skip(2), p.prefix) =~= s.skip(2));
        assert(p.is_said_by(text));
        a_text_that_says_where_is_kept(p, text);
        assert(bare + text =~= text);
    } else if dir.prefix !is Unix && begins_with_share(s) {
        let n = share_length(s) as int;
        names_behind_a_share(s);
        let p = PathView {
            prefix: PrefixView::Other(with_replaced(s.take(n), '/', '\\')),
            rooted: true,
            names: leading_on(pieces(s, '/').skip(4)),
            spelling: None,
        };
        assert(with_slashes(text.skip(n), p.prefix) =~= s.skip(n));
        assert forall|i: int| 0 <= i < n implies p.prefix.allows(
            #[trigger] text[i],
            p.prefix.written()[i],
        ) by {
            assert(s[i] == if text[i] == '\\' {
                '/'
            } else {
                text[i]
            });
        }
        a_text_that_says_where_is_kept(p, text);
        assert(bare + text =~= text);
    } else if s.len() > 0 && s[0] == '/' {
        let p = PathView { rooted: true, names, ..dir };
        let all = dir.lead() + text;
        let n = dir.prefix.written().len() as int;
        assert forall|i: int| 0 <= i < n implies p.prefix.allows(
            #[trigger] all[i],
            p.prefix.written()[i],
        ) by {
            assert(all[i] == dir.written()[i]);
        }
        assert(all.skip(n) =~= text);
        a_text_that_says_where_is_kept(p, all);
    } else {
        let p = PathView { names: dir.names + names, ..dir };
        what_leads_down(dir, text);
        a_text_that_says_where_is_kept(p, dir.body() + dir.next_gap() + text);
    }
}

/// Names with a separator between them lead down name by name, whichever separator it is.
#[verifier::spinoff_prover]
#[verifier::rlimit(40)]
pub proof fn names_lead_down_one_by_one(dir: PathView, x: Seq<char>, y: Seq<char>)
    requires
        is_one_name(x),
        is_one_name(y),
        dir.prefix !is Unix,
    ensures
        dir.join_text(x + seq!['/'] + y).is_same(dir.join(x).join(y)),
        dir.join_text(x + seq!['\\'] + y).is_same(dir.join(x).join(y)),
{
    let slash = x + seq!['/'] + y;
    let back = x + seq!['\\'] + y;
    let p = dir.prefix;
    one_name_is_one_piece(x);
    one_name_is_one_piece(y);
    names_around_a_slash(x, y);
    assert(with_slashes(slash, p) =~= slash);
    assert(with_slashes(back, p) =~= slash);
    assert(slash[x.len() as int] == '/');
    assert(back[x.len() as int] == '\\');
    assert(!is_one_name(slash) && !is_one_name(back));
    assert(slash[0] == x[0]);
    assert(!begins_with_drive(slash)) by {
        if x.len() > 1 {
            assert(slash[1] == x[1]);
        } else {
            assert(slash[1] == '/');
        }
    }
    assert(!begins_with_share(slash)) by {
        crate::text::pieces_lie_between(x, '/', y);
        assert(pieces(slash, '/')[0] == x);
    }
    assert(dir.names + (seq![x] + seq![y]) =~= dir.names.push(x).push(y));
}

/// Behind a separator at the start a name leads down from the root, and behind a drive from the
/// root of that drive.
#[verifier::spinoff_prover]
#[verifier::rlimit(40)]
pub proof fn a_root_leads_away_from_the_folder(dir: PathView, x: Seq<char>, letter: char)
    requires
        is_one_name(x),
        dir.prefix !is Unix,
        'A' <= letter <= 'Z',
    ensures
        ({
            let r = dir.join_text(seq!['\\'] + x);
            r.names == seq![x] && r.prefix == dir.prefix && r.rooted
        }),
        ({
            let r = dir.join_text(seq![letter, ':', '\\'] + x);
            r.names == seq![x] && r.prefix == PrefixView::Disk(letter as u8) && r.rooted
        }),
{
    let p = dir.prefix;
    one_name_is_one_piece(x);
    let root = seq!['\\'] + x;
    let s = seq!['/'] + x;
    assert(with_slashes(root, p) =~= s);
    let none = Seq::<char>::empty();
    names_around_a_slash(none, x);
    first_name(none);
    assert(none + seq!['/'] + x =~= s);
    assert(Seq::<Seq<char>>::empty() + seq![x] =~= seq![x]);
    assert(root[0] == '\\');
    assert(!is_one_name(root));
    assert(!begins_with_share(s)) by {
        crate::text::pieces_lie_between(none, '/', x);
        assert(pieces(s, '/').len() == 2);
    }
    let far = seq![letter, ':', '\\'] + x;
    let f = with_slashes(far, p);
    assert(f =~= seq![letter, ':', '/'] + x);
    assert(far[1] == ':');
    assert(!is_one_name(far));
    assert(f.skip(2) =~= s);
    assert(f[0] == letter && f[1] == ':' && f[2] == '/');
}

proof fn one_name_is_one_piece(x: Seq<char>)
    requires
        is_one_name(x),
    ensures
        names_in(x) == seq![x],
        pieces(x, '/') == seq![x],
{
    assert forall|i: int| 0 <= i < x.len() implies #[trigger] x[i] != '/' by {}
    crate::text::pieces_lie_between(x, '/', Seq::empty());
    one_piece(x);
}

/// An entry stands behind its folder as that is written, with a separator between them unless the
/// folder is written with one at its end.
pub proof fn an_entry_stands_behind_its_folder(dir: PathView, name: Seq<char>)
    requires
        dir.names.len() > 0,
    ensures
        dir.tail().len() > 0 && dir.prefix.separates(dir.written().last()) ==> dir.join(
            name,
        ).written() == dir.written() + name,
        dir.tail().len() == 0 || !dir.prefix.separates(dir.written().last()) ==> dir.join(
            name,
        ).written() == dir.written() + seq![dir.prefix.separator()] + name,
{
    let r = dir.join(name);
    let n = dir.names.len();
    names_before_an_entry(dir, name, n);
    assert(r.gap(n as int) == dir.next_gap());
    assert(r.names[n as int] == name);
    assert(r.written() =~= dir.body() + dir.next_gap() + name);
    assert(dir.tail().len() > 0 ==> dir.written().last() == dir.tail().last());
    assert(dir.body() + dir.next_gap() + name =~= dir.body() + (dir.next_gap() + name));
    if dir.tail().len() > 0 && dir.prefix.separates(dir.written().last()) {
        assert(r.written() =~= dir.written() + name);
    } else {
        assert(r.written() =~= dir.written() + seq![dir.prefix.separator()] + name);
    }
}

/// Where paths are written with slashes, a backslash and a colon are characters of names like
/// others: only a slash leads down, and only one at the start leads to the root.
#[verifier::spinoff_prover]
#[verifier::rlimit(40)]
pub proof fn only_slashes_separate_where_paths_have_slashes(
    dir: PathView,
    x: Seq<char>,
    y: Seq<char>,
)
    requires
        dir.prefix is Unix,
        x.len() > 0 && x != seq!['.'],
        y.len() > 0 && y != seq!['.'],
        forall|i: int| 0 <= i < x.len() ==> #[trigger] x[i] != '/',
        forall|i: int| 0 <= i < y.len() ==> #[trigger] y[i] != '/',
    ensures
        dir.join_text(x).names == dir.names.push(x),
        dir.join_text(x + seq!['/'] + y).names == dir.names.push(x).push(y),
        dir.join_text(seq!['/'] + x).names == seq![x],
        dir.join_text(seq!['/'] + x).rooted,
        dir.join_text(x).rooted == dir.rooted,
{
    crate::text::pieces_lie_between(x, '/', Seq::empty());
    crate::text::pieces_lie_between(y, '/', Seq::empty());
    one_piece(x);
    one_piece(y);
    assert(names_in(x) == seq![x] && names_in(y) == seq![y]);
    names_around_a_slash(x, y);
    let both = x + seq!['/'] + y;
    assert(both[x.len() as int] == '/');
    assert(!is_one_name(both));
    assert(both[0] == x[0]);
    assert(dir.names + seq![x] =~= dir.names.push(x));
    assert(dir.names + (seq![x] + seq![y]) =~= dir.names.push(x).push(y));
    let none = Seq::<char>::empty();
    let root = seq!['/'] + x;
    names_around_a_slash(none, x);
    first_name(none);
    assert(none + seq!['/'] + x =~= root);
    assert(Seq::<Seq<char>>::empty() + seq![x] =~= seq![x]);
    assert(root[0] == '/');
    assert(!is_one_name(root));
}

} // verus!
