//! Dragging files between programs: what is offered to a drop target, how a
//! drop target answers, and the identifiers and byte layouts that are used.
use crate::numerals::{le32_at, le32_bytes, le32_read_back, parse_number, parsed, push_le32};
use crate::paths::{path_views, FsPath, PathView};
use crate::text::{char_lists, chars_of, pieces, split_at_each, text_eq};
use vstd::prelude::*;

verus! {

// ---------------------------------------------------------------------------
// Identifiers
// ---------------------------------------------------------------------------

/// A globally unique identifier.
#[derive(Clone, Copy, PartialEq, Eq)]
pub struct Guid {
    pub data1: u32,
    pub data2: u16,
    pub data3: u16,
    pub data4: [u8; 8],
}

/// `s` without the braces at its start.
pub open spec fn after_braces(s: Seq<char>) -> Seq<char>
    decreases s.len(),
{
    if s.len() > 0 && (s[0] == '{' || s[0] == '}') {
        after_braces(s.drop_first())
    } else {
        s
    }
}

/// `s` without the braces at its end.
pub open spec fn before_braces(s: Seq<char>) -> Seq<char>
    decreases s.len(),
{
    if s.len() > 0 && (s.last() == '{' || s.last() == '}') {
        before_braces(s.drop_last())
    } else {
        s
    }
}

/// The last eight bytes of an identifier, from its last two parts.
pub open spec fn guid_tail(d3: nat, d4: nat) -> Seq<u8> {
    seq![
        (d3 / 256) as u8,
        (d3 % 256) as u8,
        (d4 / 0x100_0000_0000 % 256) as u8,
        (d4 / 0x1_0000_0000 % 256) as u8,
        (d4 / 0x100_0000 % 256) as u8,
        (d4 / 0x1_0000 % 256) as u8,
        (d4 / 0x100 % 256) as u8,
        (d4 % 256) as u8,
    ]
}

/// Whether `g` is the identifier that `s` denotes, such as
/// `{DA9C62FD-3F94-400B-87B5-A43B9EB6C70D}`: five hexadecimal numbers with
/// hyphens between them, the braces aside.
pub open spec fn denotes_guid(s: Seq<char>, g: Guid) -> bool {
    let p = pieces(before_braces(after_braces(s)), '-');
    &&& p.len() == 5
    &&& parsed(p[0], 16, u32::MAX as nat) == Some(g.data1 as nat)
    &&& parsed(p[1], 16, u16::MAX as nat) == Some(g.data2 as nat)
    &&& parsed(p[2], 16, u16::MAX as nat) == Some(g.data3 as nat)
    &&& parsed(p[3], 16, u16::MAX as nat) matches Some(d3)
    &&& parsed(p[4], 16, u64::MAX as nat) matches Some(d4)
    &&& g.data4@ == guid_tail(d3, d4)
}

/// The characters of `s` without the braces at either end.
fn strip_braces(s: &str) -> (r: Vec<char>)
    ensures
        r@ == before_braces(after_braces(s@)),
{
    let v = chars_of(s);
    let mut from: usize = 0;
    assert(s@.skip(0) =~= s@);
    while from < v.len() && (v[from] == '{' || v[from] == '}')
        invariant
            v@ == s@,
            from <= v@.len(),
            after_braces(s@) == after_braces(s@.skip(from as int)),
        decreases v@.len() - from,
    {
        assert(s@.skip(from as int).drop_first() =~= s@.skip(from + 1));
        from = from + 1;
    }
    let ghost rest = s@.skip(from as int);
    let mut to: usize = v.len();
    assert(s@.subrange(from as int, to as int) =~= rest);
    while from < to && (v[to - 1] == '{' || v[to - 1] == '}')
        invariant
            v@ == s@,
            from <= to <= v@.len(),
            before_braces(rest) == before_braces(s@.subrange(from as int, to as int)),
        decreases to,
    {
        assert(s@.subrange(from as int, to as int).drop_last() =~= s@.subrange(
            from as int,
            to - 1,
        ));
        to = to - 1;
    }
    let mut r: Vec<char> = Vec::new();
    for i in from..to
        invariant
            from <= to <= v@.len(),
            r@ == v@.subrange(from as int, i as int),
    {
        r.push(v[i]);
    }
    r
}

/// The identifier that `s` denotes.
pub fn parse_guid(s: &str) -> (r: Option<Guid>)
    ensures
        match r {
            Some(g) => denotes_guid(s@, g),
            None => forall|g: Guid| !denotes_guid(s@, g),
        },
{
    let core = strip_braces(s);
    let parts = split_at_each(&core, '-');
    let ghost p = pieces(before_braces(after_braces(s@)), '-');
    assert(char_lists(parts@) == p);
    assert(p.len() == parts@.len());
    if parts.len() != 5 {
        return None;
    }
    assert(p[0] == parts@[0]@ && p[1] == parts@[1]@ && p[2] == parts@[2]@ && p[3] == parts@[3]@
        && p[4] == parts@[4]@);
    let data1 = parse_number(&parts[0], 16, 0xFFFF_FFFF);
    let data2 = parse_number(&parts[1], 16, 0xFFFF);
    let data3 = parse_number(&parts[2], 16, 0xFFFF);
    let d3 = parse_number(&parts[3], 16, 0xFFFF);
    let d4 = parse_number(&parts[4], 16, 0xFFFF_FFFF_FFFF_FFFF);
    match (data1, data2, data3, d3, d4) {
        (Some(a), Some(b), Some(c), Some(d), Some(e)) => {
            let data4: [u8; 8] = [
                (d / 256) as u8,
                (d % 256) as u8,
                (e / 0x100_0000_0000 % 256) as u8,
                (e / 0x1_0000_0000 % 256) as u8,
                (e / 0x100_0000 % 256) as u8,
                (e / 0x1_0000 % 256) as u8,
                (e / 0x100 % 256) as u8,
                (e % 256) as u8,
            ];
            assert(data4@ =~= guid_tail(d as nat, e as nat));
            Some(Guid { data1: a as u32, data2: b as u16, data3: c as u16, data4 })
        },
        _ => None,
    }
}

/// A text denotes at most one identifier.
pub proof fn guids_are_unique(s: Seq<char>, a: Guid, b: Guid)
    requires
        denotes_guid(s, a),
        denotes_guid(s, b),
    ensures
        a.data1 == b.data1,
        a.data2 == b.data2,
        a.data3 == b.data3,
        a.data4@ == b.data4@,
{
}

/// The position of the first desktop with the program's name, given the key
/// and the name of each.
pub open spec fn desktop_position(desktops: Seq<(String, String)>) -> int
    decreases desktops.len(),
{
    if desktops.len() == 0 || desktops[0].1@ == "Rusplorer"@ {
        0
    } else {
        1 + desktop_position(desktops.drop_first())
    }
}

/// The identifier of the first desktop with the program's name, given the key
/// and the name of each.
pub fn find_rusplorer_desktop_guid(desktops: &Vec<(String, String)>) -> (r: Option<Guid>)
    ensures
        match r {
            Some(g) => desktop_position(desktops@) < desktops@.len() && denotes_guid(
                desktops@[desktop_position(desktops@)].0@,
                g,
            ),
            None => desktop_position(desktops@) == desktops@.len() || forall|g: Guid|
                !denotes_guid(desktops@[desktop_position(desktops@)].0@, g),
        },
{
    let mut i: usize = 0;
    assert(desktops@.skip(0) =~= desktops@);
    while i < desktops.len()
        invariant
            i <= desktops@.len(),
            desktop_position(desktops@) == i + desktop_position(desktops@.skip(i as int)),
        decreases desktops@.len() - i,
    {
        assert(desktops@.skip(i as int)[0] == desktops@[i as int]);
        if text_eq(desktops[i].1.as_str(), "Rusplorer") {
            return parse_guid(desktops[i].0.as_str());
        }
        assert(desktops@.skip(i as int).drop_first() =~= desktops@.skip(i + 1));
        i = i + 1;
    }
    None
}

// ---------------------------------------------------------------------------
// Lists of shell items
// ---------------------------------------------------------------------------

/// The parent of all files, if there are files and all have the same one.
pub open spec fn common_parent(files: Seq<PathView>) -> Option<PathView> {
    if files.len() > 0 && files[0].parent() is Some && forall|i: int|
        0 <= i < files.len() ==> (#[trigger] files[i]).lies_in(files[0].parent()->0) {
        files[0].parent()
    } else {
        None
    }
}

/// The parent of all files, if there are files and all have the same one.
pub fn shared_parent(files: &Vec<FsPath>) -> (r: Option<FsPath>)
    ensures
        match r {
            Some(p) => common_parent(path_views(files@)) == Some(p@),
            None => common_parent(path_views(files@)) is None,
        },
{
    let ghost all = path_views(files@);
    if files.len() == 0 {
        return None;
    }
    assert(all[0] == files@[0]@);
    let parent = match files[0].parent() {
        Some(p) => p,
        None => {
            return None;
        },
    };
    for i in 0..files.len()
        invariant
            all == path_views(files@),
            all.len() > 0,
            all[0].parent() == Some(parent@),
            forall|k: int| 0 <= k < i ==> (#[trigger] all[k]).lies_in(parent@),
    {
        let same = match files[i].parent() {
            Some(p) => p.same(&parent),
            None => false,
        };
        assert(all[i as int] == files@[i as int]@);
        if !same {
            assert(!all[i as int].lies_in(parent@));
            return None;
        }
    }
    Some(parent)
}

/// The views of a list of byte lists.
pub open spec fn byte_views(v: Seq<Vec<u8>>) -> Seq<Seq<u8>> {
    Seq::new(v.len(), |i: int| v[i]@)
}

/// All items one after the other.
pub open spec fn concatenated(items: Seq<Seq<u8>>) -> Seq<u8>
    decreases items.len(),
{
    if items.len() == 0 {
        Seq::empty()
    } else {
        concatenated(items.drop_last()) + items.last()
    }
}

/// Where the item `i` of a list of shell items starts: the parent comes
/// first, behind the header.
pub open spec fn item_offset(parent: Seq<u8>, items: Seq<Seq<u8>>, i: int) -> int {
    (4 * (items.len() + 2) + parent.len() + concatenated(items.take(i)).len()) as int
}

/// The offsets of the first `n` items.
pub open spec fn item_offsets(parent: Seq<u8>, items: Seq<Seq<u8>>, n: int) -> Seq<u8>
    decreases n,
{
    if n <= 0 {
        Seq::empty()
    } else {
        item_offsets(parent, items, n - 1) + le32_bytes(
            (item_offset(parent, items, n - 1) % 0x1_0000_0000) as u32,
        )
    }
}

/// A list of shell items: their number, the offset of the parent, the offsets
/// of the items, the parent and the items.
pub open spec fn item_list(parent: Seq<u8>, items: Seq<Seq<u8>>) -> Seq<u8> {
    le32_bytes((items.len() % 0x1_0000_0000) as u32) + le32_bytes(
        ((4 * (items.len() + 2)) % 0x1_0000_0000) as u32,
    ) + item_offsets(parent, items, items.len() as int) + parent + concatenated(items)
}

/// Appends bytes.
fn push_bytes(out: &mut Vec<u8>, bytes: &Vec<u8>)
    ensures
        final(out)@ == old(out)@ + bytes@,
{
    let ghost before = out@;
    for i in 0..bytes.len()
        invariant
            out@ == before + bytes@.take(i as int),
    {
        out.push(bytes[i]);
        assert(out@ =~= before + bytes@.take(i + 1));
    }
    assert(bytes@.take(bytes@.len() as int) =~= bytes@);
}

proof fn offsets_grow(parent: Seq<u8>, items: Seq<Seq<u8>>, i: int)
    requires
        0 <= i <= items.len(),
    ensures
        concatenated(items.take(i)).len() <= concatenated(items).len(),
        item_offset(parent, items, i) <= item_offset(parent, items, items.len() as int),
    decreases items.len() - i,
{
    assert(items.take(items.len() as int) =~= items);
    if i < items.len() {
        offsets_grow(parent, items, i + 1);
        assert(items.take(i + 1).drop_last() =~= items.take(i));
    }
}

/// The list of shell items of `items` in `parent`.
pub fn build_shell_idlist(parent: &Vec<u8>, items: &Vec<Vec<u8>>) -> (r: Vec<u8>)
    requires
        item_offset(parent@, byte_views(items@), items@.len() as int) <= usize::MAX,
    ensures
        r@ == item_list(parent@, byte_views(items@)),
{
    let ghost all = byte_views(items@);
    let ghost p = parent@;
    let n: usize = items.len();
    proof {
        assert(all.take(n as int) =~= all);
        offsets_grow(p, all, 0);
    }
    let mut out: Vec<u8> = Vec::new();
    push_le32(&mut out, (n as u64 % 0x1_0000_0000) as u32);
    let header: usize = 4 * (n + 2);
    push_le32(&mut out, (header as u64 % 0x1_0000_0000) as u32);
    let ghost start = out@;
    let mut at: usize = header + parent.len();
    assert(all.take(0) =~= Seq::empty());
    assert(start + item_offsets(p, all, 0) =~= start);
    for i in 0..n
        invariant
            n == items@.len(),
            all == byte_views(items@),
            p == parent@,
            item_offset(p, all, n as int) <= usize::MAX,
            at == item_offset(p, all, i as int),
            out@ == start + item_offsets(p, all, i as int),
    {
        proof {
            offsets_grow(p, all, i + 1);
            assert(all.take(i + 1).drop_last() =~= all.take(i as int));
            assert(all.take(i + 1).last() == items@[i as int]@);
        }
        push_le32(&mut out, (at as u64 % 0x1_0000_0000) as u32);
        assert(out@ =~= start + item_offsets(p, all, i + 1));
        at = at + items[i].len();
    }
    push_bytes(&mut out, parent);
    let ghost head = out@;
    assert(head + concatenated(all.take(0)) =~= head);
    for i in 0..n
        invariant
            n == items@.len(),
            all == byte_views(items@),
            out@ == head + concatenated(all.take(i as int)),
    {
        assert(all.take(i + 1).drop_last() =~= all.take(i as int));
        assert(all.take(i + 1).last() == items@[i as int]@);
        push_bytes(&mut out, &items[i]);
        assert(out@ =~= head + concatenated(all.take(i + 1)));
    }
    assert(all.take(n as int) =~= all);
    assert(out@ =~= item_list(p, all));
    out
}

proof fn offsets_length(parent: Seq<u8>, items: Seq<Seq<u8>>, n: int)
    requires
        0 <= n,
    ensures
        item_offsets(parent, items, n).len() == 4 * n,
    decreases n,
{
    if n > 0 {
        offsets_length(parent, items, n - 1);
    }
}

proof fn offset_stands(parent: Seq<u8>, items: Seq<Seq<u8>>, n: int, i: int)
    requires
        0 <= i < n,
    ensures
        item_offsets(parent, items, n).len() == 4 * n,
        item_offsets(parent, items, n).subrange(4 * i, 4 * i + 4) == le32_bytes(
            (item_offset(parent, items, i) % 0x1_0000_0000) as u32,
        ),
    decreases n,
{
    offsets_length(parent, items, n);
    offsets_length(parent, items, n - 1);
    let all = item_offsets(parent, items, n);
    let before = item_offsets(parent, items, n - 1);
    if i < n - 1 {
        offset_stands(parent, items, n - 1, i);
        assert(all.subrange(4 * i, 4 * i + 4) =~= before.subrange(4 * i, 4 * i + 4));
    } else {
        assert(all.subrange(4 * i, 4 * i + 4) =~= le32_bytes(
            (item_offset(parent, items, i) % 0x1_0000_0000) as u32,
        ));
    }
}

proof fn item_stands(items: Seq<Seq<u8>>, i: int)
    requires
        0 <= i < items.len(),
    ensures
        concatenated(items.take(i)).len() + items[i].len() <= concatenated(items).len(),
        concatenated(items).subrange(
            concatenated(items.take(i)).len() as int,
            (concatenated(items.take(i)).len() + items[i].len()) as int,
        ) == items[i],
    decreases items.len(),
{
    let rest = items.drop_last();
    if i < rest.len() {
        item_stands(rest, i);
        assert(rest.take(i) =~= items.take(i));
        let from = concatenated(items.take(i)).len() as int;
        assert(concatenated(items).subrange(from, from + items[i].len())
            =~= concatenated(rest).subrange(from, from + items[i].len()));
    } else {
        assert(items.take(i) =~= rest);
        let from = concatenated(rest).len() as int;
        assert(concatenated(items).subrange(from, from + items[i].len()) =~= items[i]);
    }
}

/// Where the parts of a sequence stand that is made of five.
proof fn parts_stand(
    a: Seq<u8>,
    b: Seq<u8>,
    c: Seq<u8>,
    d: Seq<u8>,
    e: Seq<u8>,
    from: int,
    to: int,
)
    requires
        0 <= from <= to,
    ensures
        (a + b + c + d + e).len() == a.len() + b.len() + c.len() + d.len() + e.len(),
        (a + b + c + d + e).subrange(0, a.len() as int) == a,
        (a + b + c + d + e).subrange(a.len() as int, (a.len() + b.len()) as int) == b,
        to <= c.len() ==> (a + b + c + d + e).subrange(
            a.len() + b.len() + from,
            a.len() + b.len() + to,
        ) == c.subrange(from, to),
        (a + b + c + d + e).subrange(
            (a.len() + b.len() + c.len()) as int,
            (a.len() + b.len() + c.len() + d.len()) as int,
        ) == d,
        to <= e.len() ==> (a + b + c + d + e).subrange(
            a.len() + b.len() + c.len() + d.len() + from,
            a.len() + b.len() + c.len() + d.len() + to,
        ) == e.subrange(from, to),
{
    let s = a + b + c + d + e;
    assert(s.subrange(0, a.len() as int) =~= a);
    assert(s.subrange(a.len() as int, (a.len() + b.len()) as int) =~= b);
    if to <= c.len() {
        assert(s.subrange(a.len() + b.len() + from, a.len() + b.len() + to) =~= c.subrange(
            from,
            to,
        ));
    }
    assert(s.subrange(
        (a.len() + b.len() + c.len()) as int,
        (a.len() + b.len() + c.len() + d.len()) as int,
    ) =~= d);
    if to <= e.len() {
        let n = a.len() + b.len() + c.len() + d.len();
        assert(s.subrange(n + from, n + to) =~= e.subrange(from, to));
    }
}

/// In a list of shell items each offset leads to the item that it belongs to,
/// so long as the list is not longer than an offset can tell.
pub proof fn offsets_lead_to_items(parent: Seq<u8>, items: Seq<Seq<u8>>, i: int)
    requires
        0 <= i < items.len(),
        item_list(parent, items).len() <= u32::MAX,
    ensures
        le32_at(item_list(parent, items), 0) == items.len(),
        item_list(parent, items).subrange(
            le32_at(item_list(parent, items), 4),
            le32_at(item_list(parent, items), 4) + parent.len(),
        ) == parent,
        item_list(parent, items).subrange(
            le32_at(item_list(parent, items), 8 + 4 * i),
            le32_at(item_list(parent, items), 8 + 4 * i) + items[i].len(),
        ) == items[i],
{
    let data = item_list(parent, items);
    let n = items.len() as int;
    let at = concatenated(items.take(i)).len() as int;
    let from = item_offset(parent, items, i);
    list_parts_stand(parent, items, i);
    number_stands(n, data, 0);
    number_stands(4 * (n + 2), data, 4);
    number_stands(from, data, 8 + 4 * i);
}

/// A number that was written is read back.
proof fn number_stands(n: int, data: Seq<u8>, at: int)
    requires
        0 <= n <= u32::MAX,
        0 <= at <= data.len() - 4,
        data.subrange(at, at + 4) == le32_bytes((n % 0x1_0000_0000) as u32),
    ensures
        le32_at(data, at) == n,
{
    assert(n % 0x1_0000_0000 == n);
    le32_read_back(n as u32, data, at);
}

/// Where the parts of a list of shell items stand.
proof fn list_parts_stand(parent: Seq<u8>, items: Seq<Seq<u8>>, i: int)
    requires
        0 <= i < items.len(),
    ensures
        item_list(parent, items).len() == 8 + 4 * items.len() + parent.len() + concatenated(
            items,
        ).len(),
        item_offset(parent, items, i) + items[i].len() <= item_list(parent, items).len(),
        item_list(parent, items).subrange(0, 4) == le32_bytes(
            (items.len() as int % 0x1_0000_0000) as u32,
        ),
        item_list(parent, items).subrange(4, 8) == le32_bytes(
            ((4 * (items.len() as int + 2)) % 0x1_0000_0000) as u32,
        ),
        item_list(parent, items).subrange(8 + 4 * i, 8 + 4 * i + 4) == le32_bytes(
            (item_offset(parent, items, i) % 0x1_0000_0000) as u32,
        ),
        item_list(parent, items).subrange(
            4 * (items.len() as int + 2),
            4 * (items.len() as int + 2) + parent.len(),
        ) == parent,
        item_list(parent, items).subrange(
            item_offset(parent, items, i),
            item_offset(parent, items, i) + items[i].len(),
        ) == items[i],
{
    let n = items.len() as int;
    let offsets = item_offsets(parent, items, n);
    let count = le32_bytes((n % 0x1_0000_0000) as u32);
    let first = le32_bytes(((4 * (n + 2)) % 0x1_0000_0000) as u32);
    let tail = concatenated(items);
    let at = concatenated(items.take(i)).len() as int;
    offset_stands(parent, items, n, i);
    item_stands(items, i);
    parts_stand(count, first, offsets, parent, tail, 4 * i, 4 * i + 4);
    parts_stand(count, first, offsets, parent, tail, at, at + items[i].len());
}

// ---------------------------------------------------------------------------
// The source of a drag
// ---------------------------------------------------------------------------

/// The clipboard format of a file list.
pub const CF_HDROP: u16 = 15;

/// The key state of a held left mouse button.
pub const MK_LBUTTON: u32 = 1;

/// The key state of a held right mouse button.
pub const MK_RBUTTON: u32 = 2;

/// The drop effects.
pub const DROPEFFECT_NONE: u32 = 0;

pub const DROPEFFECT_COPY: u32 = 1;

pub const DROPEFFECT_MOVE: u32 = 2;

pub const DROPEFFECT_LINK: u32 = 4;

/// The mouse button that a drag is held with.
pub fn tracked_button(right_button: bool) -> (r: u32)
    ensures
        r == if right_button {
            MK_RBUTTON
        } else {
            MK_LBUTTON
        },
{
    if right_button {
        MK_RBUTTON
    } else {
        MK_LBUTTON
    }
}

/// The effect that is suggested to the target: a link for a drag with the
/// right button, so that the shell offers to make a shortcut.
pub fn preferred_effect(right_button: bool) -> (r: u32)
    ensures
        r == if right_button {
            DROPEFFECT_LINK
        } else {
            DROPEFFECT_COPY
        },
{
    if right_button {
        DROPEFFECT_LINK
    } else {
        DROPEFFECT_COPY
    }
}

/// What becomes of a drag.
#[derive(Clone, Copy, PartialEq, Eq, Structural)]
pub enum DragStep {
    GoOn,
    Drop,
    Cancel,
}

/// A drag is cancelled with the escape key, and dropped once its button is
/// released.
pub fn query_continue_drag(escape: bool, key_state: u32, button: u32) -> (r: DragStep)
    ensures
        r == if escape {
            DragStep::Cancel
        } else if key_state & button == 0 {
            DragStep::Drop
        } else {
            DragStep::GoOn
        },
{
    if escape {
        DragStep::Cancel
    } else if key_state & button == 0 {
        DragStep::Drop
    } else {
        DragStep::GoOn
    }
}

/// Whether a drag that is over moved the files.
pub fn was_moved(dropped: bool, effect: u32) -> (r: bool)
    ensures
        r == (dropped && effect == DROPEFFECT_MOVE),
{
    dropped && effect == DROPEFFECT_MOVE
}

/// The formats in which a drag offers its files, by number; zero for a format
/// that it does not offer.
#[derive(Clone, Copy, PartialEq, Eq, Structural)]
pub struct DragFormats {
    /// The marker of a drag with the right button.
    pub right_drag: u16,
    /// The marker of a drag out of this program.
    pub source_drag: u16,
    /// The list of shell items.
    pub item_list: u16,
    /// The suggested effect.
    pub preferred_effect: u16,
}

/// What a format holds.
#[derive(Clone, Copy, PartialEq, Eq, Structural)]
pub enum DragPayload {
    FileList,
    ItemList,
    PreferredEffect,
    /// The number of the process that the drag comes from.
    SourceProcess,
    /// One byte, whose presence is all that counts.
    RightMarker,
}

/// What a format holds, if the drag offers it.
pub open spec fn payload_of(f: DragFormats, format: u16) -> Option<DragPayload> {
    if format == CF_HDROP {
        Some(DragPayload::FileList)
    } else if f.item_list != 0 && format == f.item_list {
        Some(DragPayload::ItemList)
    } else if format == f.preferred_effect {
        Some(DragPayload::PreferredEffect)
    } else if format == f.source_drag {
        Some(DragPayload::SourceProcess)
    } else if f.right_drag != 0 && format == f.right_drag {
        Some(DragPayload::RightMarker)
    } else {
        None
    }
}

/// The formats that a drag tells of, the richest one first.
pub open spec fn offered(f: DragFormats) -> Seq<u16> {
    (if f.item_list != 0 {
        seq![f.item_list]
    } else {
        Seq::empty()
    }) + seq![CF_HDROP] + (if f.right_drag != 0 {
        seq![f.right_drag]
    } else {
        Seq::empty()
    }) + seq![f.preferred_effect, f.source_drag]
}

impl DragFormats {
    /// What a format holds, if the drag offers it.
    pub fn get_data(&self, format: u16) -> (r: Option<DragPayload>)
        ensures
            r == payload_of(*self, format),
    {
        if format == CF_HDROP {
            Some(DragPayload::FileList)
        } else if self.item_list != 0 && format == self.item_list {
            Some(DragPayload::ItemList)
        } else if format == self.preferred_effect {
            Some(DragPayload::PreferredEffect)
        } else if format == self.source_drag {
            Some(DragPayload::SourceProcess)
        } else if self.right_drag != 0 && format == self.right_drag {
            Some(DragPayload::RightMarker)
        } else {
            None
        }
    }

    /// Whether the drag offers a format.
    pub fn query_get_data(&self, format: u16) -> (r: bool)
        ensures
            r == payload_of(*self, format) is Some,
    {
        self.get_data(format).is_some()
    }

    /// The formats that the drag tells of.
    pub fn enum_formats(&self) -> (r: Vec<u16>)
        ensures
            r@ == offered(*self),
    {
        let mut r: Vec<u16> = Vec::new();
        if self.item_list != 0 {
            r.push(self.item_list);
        }
        r.push(CF_HDROP);
        if self.right_drag != 0 {
            r.push(self.right_drag);
        }
        r.push(self.preferred_effect);
        r.push(self.source_drag);
        assert(r@ =~= offered(*self));
        r
    }
}

/// Every format that a drag tells of can be had from it, and every one that
/// can be had is told of.
pub proof fn formats_told_of_are_those_that_can_be_had(f: DragFormats, format: u16)
    ensures
        offered(f).contains(format) <==> payload_of(f, format) is Some,
{
    let all = offered(f);
    let n = all.len() as int;
    assert(all[n - 1] == f.source_drag);
    assert(all[n - 2] == f.preferred_effect);
    if f.item_list != 0 {
        assert(all[0] == f.item_list);
        assert(all[1] == CF_HDROP);
        if f.right_drag != 0 {
            assert(all[2] == f.right_drag);
        }
    } else {
        assert(all[0] == CF_HDROP);
        if f.right_drag != 0 {
            assert(all[1] == f.right_drag);
        }
    }
    if all.contains(format) {
        let i = all.index_of(format);
        assert(all[i] == format);
    }
}

// ---------------------------------------------------------------------------
// The target of a drag
// ---------------------------------------------------------------------------

/// Whether a drag comes from this very process, given the number that it
/// carries, if that could be read.
pub fn is_own_drag(source: Option<u32>, own: u32) -> (r: bool)
    ensures
        r == (source == Some(own)),
{
    match source {
        Some(pid) => pid == own,
        None => false,
    }
}

/// What the drop target knows of the drag over it.
#[derive(Clone, Copy, PartialEq, Eq, Structural)]
pub struct DropTarget {
    pub last_key_state: u32,
    /// The drag is one with the right button.
    pub is_right_drag: bool,
    /// The drag comes from this process and is refused.
    pub refused: bool,
    /// A drag is over the window.
    pub active: bool,
}

/// Where dropped files go.
#[derive(Clone, Copy, PartialEq, Eq, Structural)]
pub enum Delivery {
    Nowhere,
    /// They are copied at once.
    Copy,
    /// The user is asked.
    Menu,
}

/// What comes with a drop.
#[derive(Clone, Copy, PartialEq, Eq, Structural)]
pub enum DropLoad {
    /// No file list could be read.
    Unreadable,
    /// A file list, without files or with some.
    Files(bool),
}

impl DropTarget {
    /// No drag is over the window.
    pub fn new() -> (r: DropTarget)
        ensures
            r == (DropTarget {
                last_key_state: 0,
                is_right_drag: false,
                refused: false,
                active: false,
            }),
    {
        DropTarget { last_key_state: 0, is_right_drag: false, refused: false, active: false }
    }

    /// The target after a drag came over the window.
    pub open spec fn entered(
        self,
        own: bool,
        key_state: u32,
        marked_right: bool,
        right_held: bool,
    ) -> DropTarget {
        if own {
            DropTarget { last_key_state: key_state, refused: true, ..self }
        } else {
            DropTarget {
                last_key_state: key_state,
                is_right_drag: marked_right || key_state & MK_RBUTTON != 0 || right_held,
                active: true,
                ..self
            }
        }
    }

    /// The target after a drag moved over the window.
    pub open spec fn moved_over(self, key_state: u32) -> DropTarget {
        if self.refused {
            self
        } else {
            DropTarget {
                last_key_state: key_state,
                is_right_drag: self.is_right_drag || key_state & MK_RBUTTON != 0,
                ..self
            }
        }
    }

    /// The target after a drag left the window.
    pub open spec fn left(self) -> DropTarget {
        DropTarget { is_right_drag: false, refused: false, active: false, ..self }
    }

    /// The target after a drop.
    pub open spec fn dropped(self, load: DropLoad) -> DropTarget {
        if self.refused {
            DropTarget { refused: false, active: false, ..self }
        } else {
            match load {
                DropLoad::Unreadable => self,
                DropLoad::Files(_) => DropTarget { active: false, ..self },
            }
        }
    }

    /// Where the files of a drop go.
    pub open spec fn delivery(self, load: DropLoad, marked_right: bool) -> Delivery {
        if self.refused || load != DropLoad::Files(true) {
            Delivery::Nowhere
        } else if self.is_right_drag || marked_right {
            Delivery::Menu
        } else {
            Delivery::Copy
        }
    }

    /// A drag comes over the window: it is refused if it comes from this
    /// process, and its files are taken if it has any. The right button is
    /// seen by a marker, by the key state or by the mouse itself.
    pub fn drag_enter(
        &mut self,
        own: bool,
        key_state: u32,
        marked_right: bool,
        right_held: bool,
        has_files: bool,
    ) -> (effect: u32)
        ensures
            *final(self) == old(self).entered(own, key_state, marked_right, right_held),
            effect == if !own && has_files {
                DROPEFFECT_COPY
            } else {
                DROPEFFECT_NONE
            },
    {
        self.last_key_state = key_state;
        if own {
            self.refused = true;
            return DROPEFFECT_NONE;
        }
        self.is_right_drag = marked_right || key_state & MK_RBUTTON != 0 || right_held;
        self.active = true;
        if has_files {
            DROPEFFECT_COPY
        } else {
            DROPEFFECT_NONE
        }
    }

    /// A drag moves over the window: the right button is remembered once it is
    /// seen.
    pub fn drag_over(&mut self, key_state: u32) -> (effect: u32)
        ensures
            *final(self) == old(self).moved_over(key_state),
            effect == if old(self).refused {
                DROPEFFECT_NONE
            } else {
                DROPEFFECT_COPY
            },
    {
        if self.refused {
            return DROPEFFECT_NONE;
        }
        self.last_key_state = key_state;
        if key_state & MK_RBUTTON != 0 {
            self.is_right_drag = true;
        }
        DROPEFFECT_COPY
    }

    /// A drag leaves the window.
    pub fn drag_leave(&mut self)
        ensures
            *final(self) == old(self).left(),
    {
        self.is_right_drag = false;
        self.refused = false;
        self.active = false;
    }

    /// Files are dropped on the window.
    pub fn drop_files(&mut self, load: DropLoad, marked_right: bool) -> (r: (Delivery, u32))
        ensures
            *final(self) == old(self).dropped(load),
            r.0 == old(self).delivery(load, marked_right),
            r.1 == if r.0 == Delivery::Nowhere {
                DROPEFFECT_NONE
            } else {
                DROPEFFECT_COPY
            },
    {
        if self.refused {
            self.refused = false;
            self.active = false;
            return (Delivery::Nowhere, DROPEFFECT_NONE);
        }
        match load {
            DropLoad::Unreadable => (Delivery::Nowhere, DROPEFFECT_NONE),
            DropLoad::Files(some) => {
                self.active = false;
                if !some {
                    (Delivery::Nowhere, DROPEFFECT_NONE)
                } else if self.is_right_drag || marked_right {
                    (Delivery::Menu, DROPEFFECT_COPY)
                } else {
                    (Delivery::Copy, DROPEFFECT_COPY)
                }
            },
        }
    }
}

/// A drag of one's own is refused from beginning to end: nothing that it drops
/// is delivered, however it moves over the window.
pub proof fn own_drag_is_never_delivered(
    t: DropTarget,
    key_state: u32,
    later_state: u32,
    marked: bool,
    held: bool,
    load: DropLoad,
    marked_right: bool,
)
    ensures
        t.entered(true, key_state, marked, held).moved_over(later_state).delivery(
            load,
            marked_right,
        ) == Delivery::Nowhere,
        t.entered(true, key_state, marked, held).moved_over(later_state).refused,
{
}

/// A drag that another process began, after the last one left or was dropped,
/// is delivered if it brings files; with the right button held at any time it
/// asks first.
pub proof fn foreign_drag_is_delivered(
    t: DropTarget,
    key_state: u32,
    later_state: u32,
    marked: bool,
    held: bool,
    marked_right: bool,
)
    requires
        !t.refused,
    ensures
        t.entered(false, key_state, marked, held).moved_over(later_state).delivery(
            DropLoad::Files(true),
            marked_right,
        ) == if marked || held || marked_right || key_state & MK_RBUTTON != 0 || later_state
            & MK_RBUTTON != 0 {
            Delivery::Menu
        } else {
            Delivery::Copy
        },
{
}

// ---------------------------------------------------------------------------
// The place of the drop target
// ---------------------------------------------------------------------------

/// Whether the drop target is registered. At the first attempt it is registered whatever is
/// there, and later only once the target that the window brings along could be revoked.
pub fn registers_target(first: bool, revoked: bool) -> (r: bool)
    ensures
        r == (first || revoked),
{
    first || revoked
}

/// Whether no further attempt is made. A first attempt is the last where it fails, or where it
/// took the place of the target that the window brings along; a later one where it succeeds.
pub fn is_settled(first: bool, revoked: bool, registered: bool) -> (r: bool)
    ensures
        r == if first {
            revoked || !registered
        } else {
            revoked && registered
        },
{
    if first {
        revoked || !registered
    } else {
        revoked && registered
    }
}

// ---------------------------------------------------------------------------
// Dropped files that will not last
// ---------------------------------------------------------------------------

/// The directory into which short-lived files are copied.
pub open spec fn staging_of(temp: PathView) -> PathView {
    temp.join("rusplorer_drop"@)
}

/// The directory into which short-lived files are copied.
pub fn staging_dir(temp: &FsPath) -> (r: FsPath)
    ensures
        r@ == staging_of(temp@),
{
    temp.join("rusplorer_drop")
}

/// Where a dropped file is copied to before the drop is answered: only files
/// in the temporary directory are, as their owner may remove them right after.
pub fn staged_copy(source: &FsPath, temp: &FsPath) -> (r: Option<FsPath>)
    ensures
        match r {
            Some(p) => source@.starts_with(temp@) && source@.file_name() is Some && p@
                == staging_of(temp@).join(source@.file_name()->0),
            None => !source@.starts_with(temp@) || source@.file_name() is None,
        },
{
    if !source.starts_with(temp) {
        return None;
    }
    match source.file_name() {
        Some(name) => Some(staging_dir(temp).join(name.as_str())),
        None => None,
    }
}

/// Whether dropped files are moved into place: only where every one of them is
/// a copy of one's own.
pub fn moves_dropped(files: &Vec<FsPath>, temp: &FsPath) -> (r: bool)
    ensures
        r == forall|i: int|
            0 <= i < files@.len() ==> path_views(files@)[i].starts_with(staging_of(temp@)),
{
    let staging = staging_dir(temp);
    for i in 0..files.len()
        invariant
            staging@ == staging_of(temp@),
            forall|k: int| 0 <= k < i ==> path_views(files@)[k].starts_with(staging_of(temp@)),
    {
        if !files[i].starts_with(&staging) {
            assert(!path_views(files@)[i as int].starts_with(staging_of(temp@)));
            return false;
        }
    }
    true
}

// ---------------------------------------------------------------------------
// Files on the clipboard
// ---------------------------------------------------------------------------

/// The effect that goes with files on the clipboard.
pub open spec fn effect_of_cut(is_cut: bool) -> u32 {
    if is_cut {
        DROPEFFECT_MOVE
    } else {
        DROPEFFECT_COPY
    }
}

/// The effect that goes with files on the clipboard.
pub fn clipboard_effect(is_cut: bool) -> (r: u32)
    ensures
        r == effect_of_cut(is_cut),
{
    if is_cut {
        DROPEFFECT_MOVE
    } else {
        DROPEFFECT_COPY
    }
}

/// Whether files on the clipboard are to be moved, given their effect, if it
/// could be read.
pub fn read_clipboard_drop_effect_is_cut(effect: Option<u32>) -> (r: bool)
    ensures
        r == match effect {
            Some(e) => e & DROPEFFECT_MOVE != 0,
            None => false,
        },
{
    match effect {
        Some(e) => e & DROPEFFECT_MOVE != 0,
        None => false,
    }
}

/// Files that were cut are read back as cut, and files that were copied as
/// copied.
pub proof fn clipboard_effect_round_trip(is_cut: bool)
    ensures
        (effect_of_cut(is_cut) & DROPEFFECT_MOVE != 0) == is_cut,
{
    assert(2u32 & 2u32 != 0) by (bit_vector);
    assert(1u32 & 2u32 == 0) by (bit_vector);
}

/// Files of one folder have that folder in common; a file of another folder leaves none in common.
pub proof fn files_of_one_folder_share_it(
    dir: PathView,
    other: PathView,
    names: Seq<Seq<char>>,
    n: Seq<char>,
)
    requires
        names.len() > 0,
    ensures
        common_parent(Seq::new(names.len(), |i: int| dir.join(names[i]))) matches Some(p)
            && p.is_same(dir),
        !other.is_same(dir) ==> common_parent(
            Seq::new(names.len(), |i: int| dir.join(names[i])).push(other.join(n)),
        ) is None,
        common_parent(Seq::empty()) is None,
{
    let files = Seq::new(names.len(), |i: int| dir.join(names[i]));
    crate::paths::an_entry_has_the_names_of_its_folder(dir, names[0]);
    let p = files[0].parent()->0;
    assert(p.is_same(dir));
    assert forall|i: int| 0 <= i < files.len() implies (#[trigger] files[i]).lies_in(p) by {
        crate::paths::an_entry_has_the_names_of_its_folder(dir, names[i]);
    }
    let more = files.push(other.join(n));
    crate::paths::an_entry_has_the_names_of_its_folder(other, n);
    if !other.is_same(dir) {
        assert(more[0] == files[0]);
        assert(!more[files.len() as int].lies_in(p));
    }
}

/// A drag that is refused stays so until it leaves or is dropped; after that the next one is
/// judged anew.
pub proof fn a_refusal_ends_with_the_drag(t: DropTarget, key_state: u32, load: DropLoad)
    ensures
        t.entered(true, key_state, false, false).refused,
        t.refused ==> t.moved_over(key_state).refused,
        !t.left().refused,
        !t.left().is_right_drag,
        !t.left().active,
        t.refused ==> !t.dropped(load).refused,
        t.delivery(DropLoad::Files(false), true) == Delivery::Nowhere,
        t.delivery(DropLoad::Unreadable, true) == Delivery::Nowhere,
{
}

/// The desktop of the program is the first that bears its name.
pub proof fn the_first_desktop_of_the_name_is_found(desktops: Seq<(String, String)>, i: int)
    requires
        0 <= i <= desktops.len(),
        i < desktops.len() ==> desktops[i].1@ == "Rusplorer"@,
        forall|k: int| 0 <= k < i ==> (#[trigger] desktops[k]).1@ != "Rusplorer"@,
    ensures
        desktop_position(desktops) == i,
    decreases desktops.len(),
{
    if i > 0 {
        let rest = desktops.drop_first();
        assert(desktops[0].1@ != "Rusplorer"@);
        assert forall|k: int| 0 <= k < i - 1 implies (#[trigger] rest[k]).1@ != "Rusplorer"@ by {
            assert(rest[k] == desktops[k + 1]);
        }
        if i < desktops.len() {
            assert(rest[i - 1] == desktops[i]);
        }
        the_first_desktop_of_the_name_is_found(rest, i - 1);
    }
}

/// A file that will not last is kept under its own name in a folder for such files.
pub proof fn short_lived_files_keep_their_names(temp: PathView, name: Seq<char>)
    ensures
        staging_of(temp).names == temp.names.push("rusplorer_drop"@),
        staging_of(temp).join(name).names == temp.names.push("rusplorer_drop"@).push(name),
        staging_of(temp).prefix == temp.prefix,
        effect_of_cut(true) != effect_of_cut(false),
{
}

/// The last eight bytes of an identifier hold its last two numbers, the higher bytes first.
#[verifier::spinoff_prover]
pub proof fn the_last_bytes_hold_the_last_numbers(d3: nat, d4: nat)
    requires
        d3 < 0x1_0000,
        d4 < 0x1_0000_0000_0000,
    ensures
        ({
            let t = guid_tail(d3, d4);
            &&& t.len() == 8
            &&& t[0] * 0x100 + t[1] == d3
            &&& t[2] * 0x100_0000_0000 + t[3] * 0x1_0000_0000 + t[4] * 0x100_0000 + t[5] * 0x1_0000
                + t[6] * 0x100 + t[7] == d4
        }),
{
    byte_step(d3, 1);
    byte_step(d4, 1);
    byte_step(d4, 0x100);
    byte_step(d4, 0x1_0000);
    byte_step(d4, 0x100_0000);
    byte_step(d4, 0x1_0000_0000);
    byte_step(d4, 0x100_0000_0000);
    assert(d4 / 0x1_0000_0000_0000 == 0);
    let t = guid_tail(d3, d4);
    assert(t[0] == d3 / 0x100 && t[1] == d3 % 0x100);
    assert(t[2] == d4 / 0x100_0000_0000 % 256);
    assert(t[3] == d4 / 0x1_0000_0000 % 256);
    assert(t[4] == d4 / 0x100_0000 % 256);
    assert(t[5] == d4 / 0x1_0000 % 256);
    assert(t[6] == d4 / 0x100 % 256);
    assert(t[7] == d4 % 256);
}

/// What is left of a number once some of its bytes are cut off has one byte more than what is left
/// once another one is.
proof fn byte_step(n: nat, c: nat)
    requires
        c > 0,
    ensures
        n / c == (n / (c * 256)) * 256 + (n / c) % 256,
{
    vstd::arithmetic::div_mod::lemma_div_denominator(n as int, c as int, 256);
    vstd::arithmetic::div_mod::lemma_fundamental_div_mod((n / c) as int, 256);
}

/// An identifier is read from its five numbers with hyphens between them, in braces or without.
pub proof fn an_identifier_is_read_from_its_numbers(
    p0: Seq<char>,
    p1: Seq<char>,
    p2: Seq<char>,
    p3: Seq<char>,
    p4: Seq<char>,
    g: Guid,
)
    requires
        forall|i: int| 0 <= i < p0.len() ==> is_plain_part(#[trigger] p0[i]),
        forall|i: int| 0 <= i < p1.len() ==> is_plain_part(#[trigger] p1[i]),
        forall|i: int| 0 <= i < p2.len() ==> is_plain_part(#[trigger] p2[i]),
        forall|i: int| 0 <= i < p3.len() ==> is_plain_part(#[trigger] p3[i]),
        forall|i: int| 0 <= i < p4.len() ==> is_plain_part(#[trigger] p4[i]),
        p0.len() > 0,
        p4.len() > 0,
        parsed(p0, 16, u32::MAX as nat) == Some(g.data1 as nat),
        parsed(p1, 16, u16::MAX as nat) == Some(g.data2 as nat),
        parsed(p2, 16, u16::MAX as nat) == Some(g.data3 as nat),
        parsed(p3, 16, u16::MAX as nat) is Some,
        parsed(p4, 16, u64::MAX as nat) is Some,
        g.data4@ == guid_tail(
            parsed(p3, 16, u16::MAX as nat)->0,
            parsed(p4, 16, u64::MAX as nat)->0,
        ),
    ensures
        denotes_guid(
            p0 + seq!['-'] + (p1 + seq!['-'] + (p2 + seq!['-'] + (p3 + seq!['-'] + p4))),
            g,
        ),
        denotes_guid(
            seq!['{'] + (p0 + seq!['-'] + (p1 + seq!['-'] + (p2 + seq!['-'] + (p3 + seq!['-']
                + p4)))) + seq!['}'],
            g,
        ),
{
    let s3 = p3 + seq!['-'] + p4;
    let s2 = p2 + seq!['-'] + s3;
    let s1 = p1 + seq!['-'] + s2;
    let s = p0 + seq!['-'] + s1;
    crate::text::pieces_lie_between(p4, '-', Seq::empty());
    crate::text::pieces_lie_between(p3, '-', p4);
    crate::text::pieces_lie_between(p2, '-', s3);
    crate::text::pieces_lie_between(p1, '-', s2);
    crate::text::pieces_lie_between(p0, '-', s1);
    let p = pieces(s, '-');
    assert(p =~= seq![p0, p1, p2, p3, p4]);
    assert(s[0] == p0[0]);
    assert(is_plain_part(p0[0]));
    assert(s.last() == p4.last());
    assert(is_plain_part(p4[p4.len() - 1]));
    let b = seq!['{'] + s + seq!['}'];
    assert(b.drop_first() =~= s + seq!['}']);
    let c = s + seq!['}'];
    assert(c[0] == s[0]);
    assert(c.drop_last() =~= s);
    assert(after_braces(s) == s);
    assert(before_braces(s) == s);
    assert(b[0] == '{');
    assert(after_braces(c) == c);
    assert(after_braces(b) == c);
    assert(before_braces(c) == s);
}

/// Whether a character stands in a number of an identifier.
pub open spec fn is_plain_part(c: char) -> bool {
    c != '-' && c != '{' && c != '}'
}

/// A drag tells of the list of items before the list of files, and of the mark of the right button
/// only where there is one; whatever it tells of can be had.
pub proof fn the_richest_format_comes_first(f: DragFormats)
    ensures
        f.item_list != 0 ==> offered(f)[0] == f.item_list && offered(f)[1] == CF_HDROP,
        f.item_list == 0 ==> offered(f)[0] == CF_HDROP,
        offered(f).last() == f.source_drag,
        offered(f).len() == 3 + (if f.item_list != 0 {
            1int
        } else {
            0int
        }) + (if f.right_drag != 0 {
            1int
        } else {
            0int
        }),
        payload_of(f, CF_HDROP) == Some(DragPayload::FileList),
{
}

} // verus!
