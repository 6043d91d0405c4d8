//! How paths are written: the spelling of a path, read from a text.
use crate::paths::{FsPath, PathPrefix, PathView, PrefixView, Spelling, SpellingView};
use crate::text::{begins_with, chars_of, found_at, text_between, text_eq, texts};
use vstd::prelude::*;

verus! {

/// How many characters at the start of a text lead nowhere: separators, and dots that stand alone.
pub open spec fn filler(rest: Seq<char>, prefix: PrefixView) -> nat
    decreases rest.len(),
{
    if rest.len() == 0 {
        0
    } else if prefix.separates(rest[0]) || (rest[0] == '.' && (rest.len() == 1
        || prefix.separates(rest[1]))) {
        1 + filler(rest.skip(1), prefix)
    } else {
        0
    }
}

/// How many characters stand before the name that comes next in a text.
pub open spec fn gap_before(rest: Seq<char>, name: Seq<char>, prefix: PrefixView) -> nat {
    if name == seq!['.'] {
        0
    } else {
        filler(rest, prefix)
    }
}

/// What stands before each of the names in a text, and what stands behind the last one; nothing
/// where the text does not hold them.
pub open spec fn found(names: Seq<Seq<char>>, rest: Seq<char>, prefix: PrefixView) -> Option<
    (Seq<Seq<char>>, Seq<char>),
>
    decreases names.len(),
{
    if names.len() == 0 {
        Some((Seq::empty(), rest))
    } else {
        let gap = gap_before(rest, names[0], prefix) as int;
        let at = rest.skip(gap);
        if !begins_with(at, names[0]) {
            None
        } else {
            match found(names.drop_first(), at.skip(names[0].len() as int), prefix) {
                Some((gaps, tail)) => Some((seq![rest.take(gap)] + gaps, tail)),
                None => None,
            }
        }
    }
}

impl PrefixView {
    /// Whether `given` can be written for the character `c` of a prefix: a small letter for the
    /// letter of a drive, and a slash for a backslash around a server.
    pub open spec fn allows(self, given: char, c: char) -> bool {
        given == c || match self {
            PrefixView::Disk(_) | PrefixView::VerbatimDisk(_) => 'a' <= given <= 'z' && given as u32
                - 32 == c as u32,
            PrefixView::Other(_) => given == '/' && c == '\\',
            _ => false,
        }
    }

    /// Whether a text begins with the prefix.
    pub open spec fn begins(self, text: Seq<char>) -> bool {
        self.written().len() <= text.len() && forall|i: int|
            0 <= i < self.written().len() ==> self.allows(#[trigger] text[i], self.written()[i])
    }
}

impl PathView {
    /// What marks the root in the text of this path.
    pub open spec fn mark_in(self, text: Seq<char>) -> Seq<char> {
        let rest = text.skip(self.prefix.written().len() as int);
        if self.rooted && rest.len() > 0 && self.prefix.separates(rest[0]) {
            rest.take(1)
        } else {
            Seq::empty()
        }
    }

    /// How this path is written in `text`; nothing where that is no text of it.
    pub open spec fn spelled_in(self, text: Seq<char>) -> Option<SpellingView> {
        let start = self.prefix.written().len() + self.mark_in(text).len();
        if !self.prefix.begins(text) {
            None
        } else {
            match found(self.names, text.skip(start as int), self.prefix) {
                Some((gaps, tail)) => Some(
                    SpellingView {
                        lead: text.take(self.prefix.written().len() as int),
                        root: self.mark_in(text),
                        gaps,
                        tail,
                    },
                ),
                None => None,
            }
        }
    }

    /// This path as it is written in `text`, where that is a text of it, and in the usual way
    /// otherwise.
    pub open spec fn written_as(self, text: Seq<char>) -> PathView {
        if self.usual().written() == text {
            self.usual()
        } else {
            PathView { spelling: self.spelled_in(text), ..self }
        }
    }
}

/// How many characters from position `from` on lead nowhere.
fn count_filler(v: &Vec<char>, from: usize, prefix: &PathPrefix) -> (r: usize)
    requires
        from <= v@.len(),
    ensures
        r == filler(v@.skip(from as int), prefix@),
        from + r <= v@.len(),
{
    let separator = prefix.separator();
    let mut at: usize = from;
    let n: usize = v.len();
    while at < n && (v[at] == '/' || v[at] == separator || (v[at] == '.' && (at + 1 == n || v[at
        + 1] == '/' || v[at + 1] == separator)))
        invariant
            separator == prefix@.separator(),
            n == v@.len(),
            from <= at <= n,
            filler(v@.skip(from as int), prefix@) == (at - from) + filler(
                v@.skip(at as int),
                prefix@,
            ),
        decreases n - at,
    {
        assert(v@.skip(at as int).skip(1) =~= v@.skip(at + 1));
        at = at + 1;
    }
    assert(filler(v@.skip(at as int), prefix@) == 0);
    at - from
}

/// Whether `name` stands at position `from` of a text.
fn stands_at(v: &Vec<char>, from: usize, name: &Vec<char>) -> (r: bool)
    requires
        from <= v@.len(),
    ensures
        r == begins_with(v@.skip(from as int), name@),
        r ==> from + name@.len() <= v@.len(),
{
    let ghost rest = v@.skip(from as int);
    assert(from + name@.len() <= v@.len() ==> rest.subrange(0, name@.len() as int)
        =~= v@.subrange(from as int, from + name@.len()));
    found_at(v, name, from)
}

/// Whether a text begins with a prefix that is usually written as `start`.
fn begins_like(v: &Vec<char>, start: &Vec<char>, prefix: &PathPrefix) -> (r: bool)
    requires
        start@ == prefix@.written(),
    ensures
        r == prefix@.begins(v@),
{
    if start.len() > v.len() {
        return false;
    }
    for i in 0..start.len()
        invariant
            start@ == prefix@.written(),
            start@.len() <= v@.len(),
            forall|k: int| 0 <= k < i ==> prefix@.allows(#[trigger] v@[k], start@[k]),
    {
        let given: char = v[i];
        let c: char = start[i];
        let other = match prefix {
            PathPrefix::Disk(_) | PathPrefix::VerbatimDisk(_) => {
                'a' <= given && given <= 'z' && given as u32 - 32 == c as u32
            },
            PathPrefix::Other(_) => given == '/' && c == '\\',
            _ => false,
        };
        if given != c && !other {
            assert(!prefix@.allows(v@[i as int], start@[i as int]));
            return false;
        }
    }
    true
}

/// What stands before each of the names from position `from` on, and where the last one ends.
fn find_gaps(names: &Vec<String>, v: &Vec<char>, from: usize, prefix: &PathPrefix) -> (r: Option<
    (Vec<String>, usize),
>)
    requires
        from <= v@.len(),
    ensures
        match r {
            Some((gaps, end)) => end <= v@.len() && found(
                texts(names@),
                v@.skip(from as int),
                prefix@,
            ) == Some((texts(gaps@), v@.skip(end as int))),
            None => found(texts(names@), v@.skip(from as int), prefix@) is None,
        },
{
    let ghost all = texts(names@);
    let mut gaps: Vec<String> = Vec::new();
    let end: usize = v.len();
    let mut at: usize = from;
    assert(all.skip(0) =~= all);
    proof {
        let f = found(all, v@.skip(from as int), prefix@);
        if f is Some {
            assert(texts(gaps@) + (f->0).0 =~= (f->0).0);
        }
    }
    for i in 0..names.len()
        invariant
            all == texts(names@),
            from <= at <= end,
            end == v@.len(),
            found(all, v@.skip(from as int), prefix@) == match found(
                all.skip(i as int),
                v@.skip(at as int),
                prefix@,
            ) {
                Some((g, t)) => Some((texts(gaps@) + g, t)),
                None => None,
            },
    {
        let name = chars_of(names[i].as_str());
        let ghost rest = v@.skip(at as int);
        let ghost so_far = texts(gaps@);
        let ghost left = all.skip(i as int);
        assert(left[0] == name@);
        assert(left.drop_first() =~= all.skip(i + 1));
        assert(name@.len() == 1 && name@[0] == '.' ==> name@ =~= seq!['.']);
        let gap: usize = if name.len() == 1 && name[0] == '.' {
            0
        } else {
            count_filler(v, at, prefix)
        };
        assert(gap == gap_before(rest, name@, prefix@));
        assert(rest.skip(gap as int) =~= v@.skip(at + gap));
        if !stands_at(v, at + gap, &name) {
            return None;
        }
        let piece = text_between(v, at, at + gap);
        assert(piece@ =~= rest.take(gap as int));
        gaps.push(piece);
        assert(texts(gaps@) =~= so_far.push(rest.take(gap as int)));
        at = at + gap + name.len();
        assert(v@.skip(at as int) =~= rest.skip(gap as int).skip(name@.len() as int));
        proof {
            let f = found(all.skip(i + 1), v@.skip(at as int), prefix@);
            if f is Some {
                assert(texts(gaps@) + (f->0).0 =~= so_far + (seq![rest.take(gap as int)] + (f->0).0));
            }
        }
    }
    assert(all.skip(all.len() as int) =~= Seq::empty());
    assert(texts(gaps@) + Seq::<Seq<char>>::empty() =~= texts(gaps@));
    Some((gaps, at))
}

impl FsPath {
    /// This path as it is written in `text`.
    pub fn written_as(&self, text: &str) -> (r: FsPath)
        ensures
            r@ == self@.written_as(text@),
    {
        let mut r = self.usual();
        if text_eq(r.to_text().as_str(), text) {
            return r;
        }
        let v = chars_of(text);
        let start = chars_of(self.prefix.to_text().as_str());
        if !begins_like(&v, &start, &self.prefix) {
            return r;
        }
        let mut at: usize = start.len();
        let lead = text_between(&v, 0, at);
        assert(lead@ =~= text@.take(at as int));
        let ghost rest = v@.skip(at as int);
        let mut root = String::new();
        assert(root@ =~= Seq::empty());
        if self.rooted && at < v.len() && (v[at] == '/' || v[at] == self.prefix.separator()) {
            root = text_between(&v, at, at + 1);
            assert(root@ =~= rest.take(1));
            at = at + 1;
        }
        assert(root@ == self@.mark_in(text@));
        match find_gaps(&self.names, &v, at, &self.prefix) {
            Some((gaps, end)) => {
                let n: usize = v.len();
                let tail = text_between(&v, end, n);
                assert(tail@ =~= v@.skip(end as int));
                r.spelling = Some(Spelling { lead, root, gaps, tail });
            },
            None => {},
        }
        r
    }
}

/// Names with what stands before them.
pub open spec fn spelled_out(gaps: Seq<Seq<char>>, names: Seq<Seq<char>>) -> Seq<char>
    decreases names.len(),
{
    if names.len() == 0 {
        Seq::empty()
    } else {
        spelled_out(gaps.drop_last(), names.drop_last()) + gaps.last() + names.last()
    }
}

/// One name more at the start stands before all others.
proof fn one_more_before(gap: Seq<char>, name: Seq<char>, gaps: Seq<Seq<char>>, names: Seq<Seq<char>>)
    requires
        gaps.len() == names.len(),
    ensures
        spelled_out(seq![gap] + gaps, seq![name] + names) == gap + name + spelled_out(gaps, names),
    decreases names.len(),
{
    let g = seq![gap] + gaps;
    let n = seq![name] + names;
    if names.len() == 0 {
        assert(n.drop_last() =~= Seq::empty());
        assert(spelled_out(g.drop_last(), n.drop_last()) =~= Seq::empty());
        assert(g.last() == gap && n.last() == name);
        assert(spelled_out(g, n) =~= gap + name + spelled_out(gaps, names));
    } else {
        one_more_before(gap, name, gaps.drop_last(), names.drop_last());
        assert(g.drop_last() =~= seq![gap] + gaps.drop_last());
        assert(n.drop_last() =~= seq![name] + names.drop_last());
        assert(g.last() == gaps.last() && n.last() == names.last());
        assert(spelled_out(g, n) =~= gap + name + spelled_out(gaps, names));
    }
}

/// A filler is part of its text.
pub proof fn filler_is_inside(rest: Seq<char>, prefix: PrefixView)
    ensures
        filler(rest, prefix) <= rest.len(),
    decreases rest.len(),
{
    if rest.len() > 0 {
        filler_is_inside(rest.skip(1), prefix);
    }
}

/// What is found in a text makes up the text.
proof fn what_is_found_makes_up_the_text(
    names: Seq<Seq<char>>,
    rest: Seq<char>,
    prefix: PrefixView,
)
    ensures
        found(names, rest, prefix) matches Some((gaps, tail)) ==> gaps.len() == names.len()
            && spelled_out(gaps, names) + tail == rest,
    decreases names.len(),
{
    if names.len() > 0 {
        filler_is_inside(rest, prefix);
        let gap = gap_before(rest, names[0], prefix) as int;
        let at = rest.skip(gap);
        let after = at.skip(names[0].len() as int);
        what_is_found_makes_up_the_text(names.drop_first(), after, prefix);
        if begins_with(at, names[0]) {
            match found(names.drop_first(), after, prefix) {
                Some((gaps, tail)) => {
                    one_more_before(rest.take(gap), names[0], gaps, names.drop_first());
                    assert(seq![names[0]] + names.drop_first() =~= names);
                    assert(at.take(names[0].len() as int) =~= names[0]);
                    assert(rest =~= rest.take(gap) + names[0] + after);
                },
                None => {},
            }
        }
    } else {
        assert(spelled_out(Seq::empty(), names) + rest =~= rest);
    }
}

/// The names of a path are written with what stands before them.
proof fn names_are_spelled_out(p: PathView, n: nat)
    requires
        p.spelling matches Some(s) && s.gaps.len() == p.names.len(),
        n <= p.names.len(),
    ensures
        p.written_names(n) == spelled_out((p.spelling->0).gaps.take(n as int), p.names.take(n as int)),
    decreases n,
{
    if n > 0 {
        names_are_spelled_out(p, (n - 1) as nat);
        let gaps = (p.spelling->0).gaps.take(n as int);
        let names = p.names.take(n as int);
        assert(gaps.drop_last() =~= (p.spelling->0).gaps.take(n - 1));
        assert(names.drop_last() =~= p.names.take(n - 1));
    }
}

/// A path that is given as a text is written as it was given, and leads to the same place however
/// it is written.
pub proof fn a_path_is_written_as_it_was_given(p: PathView, text: Seq<char>)
    ensures
        p.written_as(text).is_same(p),
        p.spelled_in(text) is Some ==> p.written_as(text).written() == text,
{
    let q = PathView { spelling: p.spelled_in(text), ..p };
    if p.spelled_in(text) is Some && p.usual().written() != text {
        let start = p.prefix.written().len() + p.mark_in(text).len();
        let rest = text.skip(start as int);
        what_is_found_makes_up_the_text(p.names, rest, p.prefix);
        names_are_spelled_out(q, q.names.len());
        assert((q.spelling->0).gaps.take(q.names.len() as int) =~= (q.spelling->0).gaps);
        assert(q.names.take(q.names.len() as int) =~= q.names);
        let first = text.take(p.prefix.written().len() as int);
        assert(text =~= first + p.mark_in(text) + rest);
        assert(q.written() =~= text);
    }
}

} // verus!
