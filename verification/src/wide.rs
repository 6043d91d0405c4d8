//! UTF-16 text and the byte layouts that carry it: zero-terminated names, the
//! file lists of the clipboard and of drag and drop, and the index files of
//! the recycle bin.
use crate::numerals::{le16, le32_at, le32_bytes, le32_read_back, push_le32, read_le16, read_le32};
use crate::text::{chars_of, texts};
use vstd::prelude::*;

verus! {

// ---------------------------------------------------------------------------
// UTF-16
// ---------------------------------------------------------------------------

/// Whether `n` is the number of a character: at most 0x10FFFF and no surrogate.
pub open spec fn is_scalar(n: int) -> bool {
    0 <= n <= 0xD7FF || 0xE000 <= n <= 0x10FFFF
}

/// `char::from_u32` of the standard library: the character with the number
/// `i`, for every number that a character has.
pub assume_specification[ char::from_u32 ](i: u32) -> (r: Option<char>)
    ensures
        match r {
            Some(c) => is_scalar(i as int) && c as u32 == i,
            None => !is_scalar(i as int),
        },
;

/// Whether `u` is the first half of a surrogate pair.
pub open spec fn is_high(u: u16) -> bool {
    0xD800 <= u <= 0xDBFF
}

/// Whether `u` is the second half of a surrogate pair.
pub open spec fn is_low(u: u16) -> bool {
    0xDC00 <= u <= 0xDFFF
}

/// The code units of one character.
pub open spec fn units(c: char) -> Seq<u16> {
    if c as u32 <= 0xFFFF {
        seq![c as u32 as u16]
    } else {
        seq![
            (0xD800 + (c as u32 - 0x10000) / 0x400) as u16,
            (0xDC00 + (c as u32 - 0x10000) % 0x400) as u16,
        ]
    }
}

/// The code units of a text.
pub open spec fn encode_utf16(s: Seq<char>) -> Seq<u16>
    decreases s.len(),
{
    if s.len() == 0 {
        Seq::empty()
    } else {
        encode_utf16(s.drop_last()) + units(s.last())
    }
}

/// The character of a surrogate pair.
pub open spec fn pair_char(hi: u16, lo: u16) -> char {
    (0x10000 + (hi - 0xD800) * 0x400 + (lo - 0xDC00)) as u32 as char
}

/// What stands for a code unit that belongs to no character.
pub open spec fn replacement() -> char {
    '\u{FFFD}'
}

/// How many code units the first character of `w` takes.
pub open spec fn first_width(w: Seq<u16>) -> int {
    if w.len() >= 2 && is_high(w[0]) && is_low(w[1]) {
        2
    } else {
        1
    }
}

/// The first character of `w`; none where an unpaired surrogate stands there.
pub open spec fn first_char(w: Seq<u16>) -> Option<char> {
    if first_width(w) == 2 {
        Some(pair_char(w[0], w[1]))
    } else if is_high(w[0]) || is_low(w[0]) {
        None
    } else {
        Some(w[0] as u32 as char)
    }
}

/// The text of `w`, with a replacement character for each unpaired surrogate.
pub open spec fn decode_lossy(w: Seq<u16>) -> Seq<char>
    decreases w.len(),
{
    if w.len() == 0 {
        Seq::empty()
    } else {
        seq![
            match first_char(w) {
                Some(c) => c,
                None => replacement(),
            },
        ] + decode_lossy(w.skip(first_width(w)))
    }
}

/// Whether every surrogate of `w` is one of a pair.
pub open spec fn is_well_paired(w: Seq<u16>) -> bool
    decreases w.len(),
{
    w.len() == 0 || (first_char(w) is Some && is_well_paired(w.skip(first_width(w))))
}

/// The text of `w`, if every surrogate of it is one of a pair.
pub open spec fn decode_utf16(w: Seq<u16>) -> Option<Seq<char>> {
    if is_well_paired(w) {
        Some(decode_lossy(w))
    } else {
        None
    }
}

/// A character is the one with its own number.
proof fn char_number(c: char)
    ensures
        is_scalar(c as u32 as int),
        (c as u32) as char == c,
        c as u32 == 0 <==> c == '\0',
{
}

/// A character is the first one of its own code units, whatever follows.
proof fn units_read_back(c: char, rest: Seq<u16>)
    ensures
        first_width(units(c) + rest) == units(c).len(),
        first_char(units(c) + rest) == Some(c),
        (units(c) + rest).skip(units(c).len() as int) == rest,
{
    let w = units(c) + rest;
    assert(w.skip(units(c).len() as int) =~= rest);
    if c as u32 > 0xFFFF {
        let n = (c as u32 - 0x10000) as int;
        assert(0 <= n < 0x100000);
        assert(0 <= n / 0x400 < 0x400);
        assert((n / 0x400) * 0x400 + n % 0x400 == n);
        assert(w[0] == units(c)[0] && w[1] == units(c)[1]);
        assert((0x10000 + (w[0] - 0xD800) * 0x400 + (w[1] - 0xDC00)) == c as u32);
    } else {
        assert(w[0] == units(c)[0]);
    }
}

/// Encoding a text that is followed by more.
proof fn encode_appends(a: Seq<char>, b: Seq<char>)
    ensures
        encode_utf16(a + b) == encode_utf16(a) + encode_utf16(b),
    decreases b.len(),
{
    if b.len() == 0 {
        assert(a + b =~= a);
        assert(encode_utf16(a) + encode_utf16(b) =~= encode_utf16(a));
    } else {
        encode_appends(a, b.drop_last());
        assert((a + b).drop_last() =~= a + b.drop_last());
        assert(encode_utf16(a + b) =~= encode_utf16(a) + encode_utf16(b));
    }
}

/// Encoding starts with the code units of the first character.
proof fn encode_from_front(s: Seq<char>)
    requires
        s.len() > 0,
    ensures
        encode_utf16(s) == units(s[0]) + encode_utf16(s.drop_first()),
{
    let head = seq![s[0]];
    assert(s =~= head + s.drop_first());
    encode_appends(head, s.drop_first());
    assert(head.drop_last() =~= Seq::empty());
    assert(encode_utf16(head.drop_last()) =~= Seq::empty());
    assert(head.last() == s[0]);
    assert(encode_utf16(head) =~= units(s[0]));
}

/// Decoding gives back the text that was encoded.
pub proof fn utf16_round_trip(s: Seq<char>)
    ensures
        is_well_paired(encode_utf16(s)),
        decode_lossy(encode_utf16(s)) == s,
        decode_utf16(encode_utf16(s)) == Some(s),
    decreases s.len(),
{
    if s.len() > 0 {
        encode_from_front(s);
        let rest = encode_utf16(s.drop_first());
        units_read_back(s[0], rest);
        utf16_round_trip(s.drop_first());
        assert(seq![s[0]] + s.drop_first() =~= s);
    }
}

/// The encoding holds a zero only where the text holds the character zero.
pub proof fn encoding_has_no_zero(s: Seq<char>)
    requires
        !s.contains('\0'),
    ensures
        !encode_utf16(s).contains(0u16),
        s.len() > 0 ==> encode_utf16(s).len() > 0,
    decreases s.len(),
{
    if s.len() > 0 {
        assert forall|i: int| 0 <= i < s.drop_last().len() implies s.drop_last()[i] != '\0' by {
            assert(s[i] != '\0');
        }
        encoding_has_no_zero(s.drop_last());
        assert(s[s.len() - 1] != '\0');
        let w = encode_utf16(s.drop_last());
        let u = units(s.last());
        char_number(s.last());
        let n = s.last() as u32;
        if n > 0xFFFF {
            assert(0 <= (n - 0x10000) / 0x400 < 0x400);
        }
        assert(u[0] != 0);
        assert(u.len() == 2 ==> u[1] != 0);
        assert forall|i: int| 0 <= i < (w + u).len() implies (w + u)[i] != 0u16 by {
            if i < w.len() {
                assert(w.contains(w[i]));
            } else if i == w.len() {
                assert((w + u)[i] == u[0]);
            } else {
                assert((w + u)[i] == u[1]);
            }
        }
    }
}

/// The code units of `s`.
pub fn to_utf16(s: &str) -> (r: Vec<u16>)
    ensures
        r@ == encode_utf16(s@),
{
    let v = chars_of(s);
    let mut r: Vec<u16> = Vec::new();
    for i in 0..v.len()
        invariant
            v@ == s@,
            r@ == encode_utf16(s@.take(i as int)),
    {
        let c: char = v[i];
        let n: u32 = c as u32;
        assert(s@.take(i + 1).drop_last() =~= s@.take(i as int));
        if n <= 0xFFFF {
            r.push(n as u16);
        } else {
            r.push((0xD800 + (n - 0x10000) / 0x400) as u16);
            r.push((0xDC00 + (n - 0x10000) % 0x400) as u16);
        }
        assert(r@ =~= encode_utf16(s@.take(i as int)) + units(c));
    }
    assert(s@.take(s@.len() as int) =~= s@);
    r
}

/// The text of `w`, and whether every surrogate of it was one of a pair.
fn decode(w: &[u16]) -> (r: (String, bool))
    ensures
        r.0@ == decode_lossy(w@),
        r.1 == is_well_paired(w@),
{
    let mut out = String::new();
    let mut sound = true;
    let mut i: usize = 0;
    assert(w@.skip(0) =~= w@);
    while i < w.len()
        invariant
            i <= w@.len(),
            out@ + decode_lossy(w@.skip(i as int)) == decode_lossy(w@),
            is_well_paired(w@) == (sound && is_well_paired(w@.skip(i as int))),
        decreases w@.len() - i,
    {
        let ghost rest = w@.skip(i as int);
        let ghost before = out@;
        let u: u16 = w[i];
        let high = u >= 0xD800 && u <= 0xDBFF;
        if high && w.len() - i >= 2 && w[i + 1] >= 0xDC00 && w[i + 1] <= 0xDFFF {
            let n: u32 = 0x10000 + (u as u32 - 0xD800) * 0x400 + (w[i + 1] as u32 - 0xDC00);
            let c: char = match char::from_u32(n) {
                Some(c) => c,
                None => '\u{FFFD}',
            };
            assert(rest[0] == w@[i as int] && rest[1] == w@[i + 1]);
            out.push(c);
            proof {
                char_number(c);
            }
            assert(c as u32 == n);
            assert(first_char(rest) == Some(c));
            assert(rest.skip(2) =~= w@.skip(i + 2));
            assert(out@ + decode_lossy(rest.skip(2)) =~= before + decode_lossy(rest));
            i = i + 2;
        } else {
            let c: char = match char::from_u32(u as u32) {
                Some(c) => c,
                None => {
                    sound = false;
                    '\u{FFFD}'
                },
            };
            assert(rest[0] == w@[i as int]);
            assert(rest.len() >= 2 ==> rest[1] == w@[i + 1]);
            out.push(c);
            proof {
                char_number(c);
            }
            assert(rest.skip(1) =~= w@.skip(i + 1));
            assert(out@ + decode_lossy(rest.skip(1)) =~= before + decode_lossy(rest));
            i = i + 1;
        }
    }
    assert(w@.skip(i as int) =~= Seq::empty());
    assert(out@ =~= decode_lossy(w@));
    (out, sound)
}

/// The text of `w`, with a replacement character for each unpaired surrogate.
pub fn from_utf16_lossy(w: &[u16]) -> (r: String)
    ensures
        r@ == decode_lossy(w@),
{
    decode(w).0
}

/// The text of `w`, if every surrogate of it is one of a pair.
pub fn from_utf16(w: &[u16]) -> (r: Option<String>)
    ensures
        match r {
            Some(s) => decode_utf16(w@) == Some(s@),
            None => decode_utf16(w@) is None,
        },
{
    let (s, sound) = decode(w);
    if sound {
        Some(s)
    } else {
        None
    }
}

// ---------------------------------------------------------------------------
// Zero-terminated names
// ---------------------------------------------------------------------------

/// The position of the first zero of `w`, or its length.
pub open spec fn zero_position(w: Seq<u16>) -> int
    decreases w.len(),
{
    if w.len() == 0 || w[0] == 0 {
        0
    } else {
        1 + zero_position(w.drop_first())
    }
}

/// `zero_position` is the first position that holds a zero, or the length.
pub proof fn zero_position_holds(w: Seq<u16>)
    ensures
        0 <= zero_position(w) <= w.len(),
        zero_position(w) < w.len() ==> w[zero_position(w)] == 0,
        forall|k: int| 0 <= k < zero_position(w) ==> w[k] != 0,
    decreases w.len(),
{
    if w.len() > 0 && w[0] != 0 {
        zero_position_holds(w.drop_first());
        assert forall|k: int| 0 <= k < zero_position(w) implies w[k] != 0 by {
            if k > 0 {
                assert(w.drop_first()[k - 1] == w[k]);
            }
        }
    }
}

/// The one position that `zero_position` can be.
proof fn zero_position_is(w: Seq<u16>, i: int)
    requires
        0 <= i <= w.len(),
        i < w.len() ==> w[i] == 0,
        forall|k: int| 0 <= k < i ==> w[k] != 0,
    ensures
        zero_position(w) == i,
{
    zero_position_holds(w);
}

/// The part of `w` before its first zero.
pub open spec fn before_zero(w: Seq<u16>) -> Seq<u16> {
    w.take(zero_position(w))
}

/// The code units of `s` and a terminating zero.
pub fn to_wide_z(s: &str) -> (r: Vec<u16>)
    ensures
        r@ == encode_utf16(s@).push(0u16),
{
    let mut r = to_utf16(s);
    r.push(0);
    r
}

/// The position of the first zero at or after `from`, or the length.
fn find_zero(w: &Vec<u16>, from: usize) -> (r: usize)
    requires
        from <= w@.len(),
    ensures
        from <= r <= w@.len(),
        r == from + zero_position(w@.skip(from as int)),
{
    let mut i: usize = from;
    while i < w.len() && w[i] != 0
        invariant
            from <= i <= w@.len(),
            forall|k: int| from <= k < i ==> w@[k] != 0,
        decreases w@.len() - i,
    {
        i = i + 1;
    }
    proof {
        let rest = w@.skip(from as int);
        assert forall|k: int| 0 <= k < i - from implies rest[k] != 0 by {
            assert(rest[k] == w@[k + from]);
        }
        zero_position_is(rest, i - from);
    }
    i
}

/// `w[from..to]`.
fn words_between(w: &Vec<u16>, from: usize, to: usize) -> (r: Vec<u16>)
    requires
        from <= to <= w@.len(),
    ensures
        r@ == w@.subrange(from as int, to as int),
{
    let mut r: Vec<u16> = Vec::new();
    for i in from..to
        invariant
            from <= to <= w@.len(),
            r@ == w@.subrange(from as int, i as int),
    {
        r.push(w[i]);
    }
    r
}

/// The text of a buffer up to its first zero.
pub fn text_before_zero(w: &Vec<u16>) -> (r: String)
    ensures
        r@ == decode_lossy(before_zero(w@)),
{
    let n = find_zero(w, 0);
    assert(w@.skip(0) =~= w@);
    let part = words_between(w, 0, n);
    assert(part@ =~= before_zero(w@));
    from_utf16_lossy(part.as_slice())
}

/// What is read from a buffer is what was written into it with its
/// terminating zero.
pub proof fn zero_terminated_round_trip(s: Seq<char>, rest: Seq<u16>)
    requires
        !s.contains('\0'),
    ensures
        decode_lossy(before_zero(encode_utf16(s).push(0u16) + rest)) == s,
{
    let e = encode_utf16(s);
    let w = e.push(0u16) + rest;
    encoding_has_no_zero(s);
    assert forall|k: int| 0 <= k < e.len() implies w[k] != 0 by {
        assert(w[k] == e[k]);
        assert(e.contains(e[k]));
    }
    assert(w[e.len() as int] == 0);
    zero_position_is(w, e.len() as int);
    assert(before_zero(w) =~= e);
    utf16_round_trip(s);
}

// ---------------------------------------------------------------------------
// Code units as bytes
// ---------------------------------------------------------------------------

/// The bytes of `w`, the less significant one of each unit first.
pub open spec fn unit_bytes(w: Seq<u16>) -> Seq<u8> {
    Seq::new(
        w.len() * 2,
        |i: int|
            if i % 2 == 0 {
                (w[i / 2] % 256) as u8
            } else {
                (w[i / 2] / 256) as u8
            },
    )
}

/// The units that `b` holds, two bytes each; an odd byte at the end is left
/// out.
pub open spec fn units_of_bytes(b: Seq<u8>) -> Seq<u16> {
    Seq::new(b.len() / 2, |i: int| le16(b[2 * i], b[2 * i + 1]))
}

/// Reading bytes as units gives back the units that were written as bytes.
pub proof fn units_read_back_from_bytes(w: Seq<u16>)
    ensures
        units_of_bytes(unit_bytes(w)) == w,
{
    let b = unit_bytes(w);
    assert forall|i: int| 0 <= i < w.len() implies units_of_bytes(b)[i] == w[i] by {
        assert((2 * i) / 2 == i && (2 * i) % 2 == 0);
        assert((2 * i + 1) / 2 == i && (2 * i + 1) % 2 == 1);
        assert(b[2 * i] == (w[i] % 256) as u8);
        assert(b[2 * i + 1] == (w[i] / 256) as u8);
    }
    assert(units_of_bytes(b) =~= w);
}

/// The units that `data[from..]` holds.
pub fn units_from(data: &[u8], from: usize) -> (r: Vec<u16>)
    requires
        from <= data@.len(),
    ensures
        r@ == units_of_bytes(data@.skip(from as int)),
{
    units_within(data, from, data.len())
}

/// The units that `data[from..to]` holds.
pub fn units_within(data: &[u8], from: usize, to: usize) -> (r: Vec<u16>)
    requires
        from <= to <= data@.len(),
    ensures
        r@ == units_of_bytes(data@.subrange(from as int, to as int)),
        to == data@.len() ==> r@ == units_of_bytes(data@.skip(from as int)),
{
    let mut r: Vec<u16> = Vec::new();
    let mut i: usize = from;
    let ghost part = data@.subrange(from as int, to as int);
    while to - i >= 2
        invariant
            from <= i <= to <= data@.len(),
            part == data@.subrange(from as int, to as int),
            i - from == 2 * r@.len(),
            r@ == units_of_bytes(part).take(r@.len() as int),
        decreases to - i,
    {
        let ghost k = r@.len() as int;
        r.push(read_le16(data, i));
        assert(part[2 * k] == data@[i as int] && part[2 * k + 1] == data@[i + 1]);
        assert(r@ =~= units_of_bytes(part).take(k + 1));
        i = i + 2;
    }
    assert(r@ =~= units_of_bytes(part));
    assert(to == data@.len() ==> part =~= data@.skip(from as int));
    r
}

// ---------------------------------------------------------------------------
// File lists
// ---------------------------------------------------------------------------

/// Each name with its terminating zero.
pub open spec fn listed_names(files: Seq<Seq<char>>) -> Seq<u16>
    decreases files.len(),
{
    if files.len() == 0 {
        Seq::empty()
    } else {
        encode_utf16(files[0]).push(0u16) + listed_names(files.drop_first())
    }
}

/// A file list: a header of 20 bytes that says where the names start and that
/// they are UTF-16, the names, and one more zero.
pub open spec fn file_list(files: Seq<Seq<char>>) -> Seq<u8> {
    le32_bytes(20) + Seq::new(12, |i: int| 0u8) + le32_bytes(1) + unit_bytes(
        listed_names(files).push(0u16),
    )
}

/// The names before the first empty one.
pub open spec fn names_in(w: Seq<u16>) -> Seq<Seq<char>>
    decreases w.len(),
    via names_in_ends
{
    if zero_position(w) == 0 {
        Seq::empty()
    } else if zero_position(w) >= w.len() {
        seq![decode_lossy(w)]
    } else {
        seq![decode_lossy(before_zero(w))] + names_in(w.skip(zero_position(w) + 1))
    }
}

#[via_fn]
proof fn names_in_ends(w: Seq<u16>) {
    zero_position_holds(w);
}

/// The names in a file list: none where the header is cut short, points past
/// the end or says that the names are not UTF-16.
pub open spec fn names_of_file_list(data: Seq<u8>) -> Seq<Seq<char>> {
    if data.len() < 20 || le32_at(data, 16) == 0 || le32_at(data, 0) > data.len() {
        Seq::empty()
    } else {
        names_in(units_of_bytes(data.skip(le32_at(data, 0))))
    }
}

/// Appends the bytes of `w`.
fn push_units(out: &mut Vec<u8>, w: &Vec<u16>)
    ensures
        final(out)@ == old(out)@ + unit_bytes(w@),
{
    let ghost before = out@;
    for i in 0..w.len()
        invariant
            out@ == before + unit_bytes(w@).take(2 * i as int),
    {
        let u: u16 = w[i];
        out.push((u % 256) as u8);
        out.push((u / 256) as u8);
        assert((2 * i as int) / 2 == i && (2 * i as int) % 2 == 0);
        assert((2 * i + 1) / 2 == i as int && (2 * i + 1) % 2 == 1);
        assert(out@ =~= before + unit_bytes(w@).take(2 * (i + 1)));
    }
    assert(unit_bytes(w@).take(2 * w@.len() as int) =~= unit_bytes(w@));
}

/// The file list of `files`.
pub fn build_file_list(files: &Vec<String>) -> (r: Vec<u8>)
    ensures
        r@ == file_list(texts(files@)),
{
    let mut words: Vec<u16> = Vec::new();
    let ghost all = texts(files@);
    let mut i: usize = 0;
    assert(all.skip(0) =~= all);
    while i < files.len()
        invariant
            i <= files@.len(),
            all == texts(files@),
            words@ + listed_names(all.skip(i as int)) == listed_names(all),
        decreases files@.len() - i,
    {
        let name = to_wide_z(files[i].as_str());
        let ghost before = words@;
        let ghost rest = all.skip(i as int);
        assert(rest[0] == files@[i as int]@);
        assert(rest.drop_first() =~= all.skip(i + 1));
        for k in 0..name.len()
            invariant
                words@ == before + name@.take(k as int),
        {
            words.push(name[k]);
            assert(words@ =~= before + name@.take(k + 1));
        }
        assert(name@.take(name@.len() as int) =~= name@);
        assert(words@ + listed_names(all.skip(i + 1)) =~= before + listed_names(rest));
        i = i + 1;
    }
    assert(all.skip(i as int) =~= Seq::empty());
    assert(words@ =~= listed_names(all));
    words.push(0);
    let mut out: Vec<u8> = Vec::new();
    push_le32(&mut out, 20);
    for k in 0..12
        invariant
            out@ == le32_bytes(20) + Seq::new(k as nat, |i: int| 0u8),
    {
        out.push(0);
        assert(out@ =~= le32_bytes(20) + Seq::new((k + 1) as nat, |i: int| 0u8));
    }
    push_le32(&mut out, 1);
    push_units(&mut out, &words);
    assert(out@ =~= file_list(all));
    out
}

/// The names in a file list.
pub fn parse_file_list(data: &[u8]) -> (r: Vec<String>)
    ensures
        texts(r@) == names_of_file_list(data@),
{
    let mut r: Vec<String> = Vec::new();
    if data.len() < 20 || read_le32(data, 16) == 0 {
        assert(texts(r@) =~= Seq::empty());
        return r;
    }
    let start: usize = read_le32(data, 0) as usize;
    if start > data.len() {
        assert(texts(r@) =~= Seq::empty());
        return r;
    }
    let w = units_from(data, start);
    let mut at: usize = 0;
    assert(w@.skip(0) =~= w@);
    assert(texts(r@) + names_in(w@) =~= names_in(w@));
    loop
        invariant_except_break
            at <= w@.len(),
            texts(r@) + names_in(w@.skip(at as int)) == names_in(w@),
        ensures
            texts(r@) == names_in(w@),
        decreases w@.len() - at,
    {
        let ghost rest = w@.skip(at as int);
        let end = find_zero(&w, at);
        if end == at {
            assert(texts(r@) =~= names_in(w@));
            break;
        }
        let part = words_between(&w, at, end);
        assert(part@ =~= before_zero(rest));
        let ghost before = texts(r@);
        r.push(from_utf16_lossy(part.as_slice()));
        assert(texts(r@) =~= before.push(decode_lossy(part@)));
        if end == w.len() {
            assert(part@ =~= rest);
            assert(texts(r@) =~= before + names_in(rest));
            break;
        }
        assert(rest.skip(end - at + 1) =~= w@.skip(end + 1));
        assert(texts(r@) + names_in(w@.skip(end + 1)) =~= before + names_in(rest));
        at = end + 1;
    }
    r
}

/// Names that can stand in a file list: not empty and without a zero.
pub open spec fn are_listable(files: Seq<Seq<char>>) -> bool {
    forall|i: int| 0 <= i < files.len() ==> files[i].len() > 0 && !(#[trigger] files[i]).contains('\0')
}

/// Reading the names of a list that ends with an empty name.
proof fn names_read_back(files: Seq<Seq<char>>)
    requires
        are_listable(files),
    ensures
        names_in(listed_names(files).push(0u16)) == files,
    decreases files.len(),
{
    let w = listed_names(files).push(0u16);
    if files.len() == 0 {
        assert(w[0] == 0);
        assert(names_in(w) =~= files);
    } else {
        let e = encode_utf16(files[0]);
        let rest = listed_names(files.drop_first()).push(0u16);
        assert(w =~= e.push(0u16) + rest);
        zero_terminated_round_trip(files[0], rest);
        encoding_has_no_zero(files[0]);
        assert forall|k: int| 0 <= k < e.len() implies w[k] != 0 by {
            assert(w[k] == e[k]);
            assert(e.contains(e[k]));
        }
        assert(w[e.len() as int] == 0);
        zero_position_is(w, e.len() as int);
        assert(w.skip(e.len() as int + 1) =~= rest);
        assert forall|i: int| 0 <= i < files.drop_first().len() implies files.drop_first()[i].len()
            > 0 && !(#[trigger] files.drop_first()[i]).contains('\0') by {
            assert(files.drop_first()[i] == files[i + 1]);
        }
        names_read_back(files.drop_first());
        assert(seq![files[0]] + files.drop_first() =~= files);
    }
}

/// A file list is read as the names that it was built from, so long as each
/// of them is not empty and holds no zero.
pub proof fn file_list_round_trip(files: Seq<Seq<char>>)
    requires
        are_listable(files),
    ensures
        names_of_file_list(file_list(files)) == files,
{
    let w = listed_names(files).push(0u16);
    let data = file_list(files);
    assert(data.subrange(0, 4) =~= le32_bytes(20));
    assert(data.subrange(16, 20) =~= le32_bytes(1));
    le32_read_back(20, data, 0);
    le32_read_back(1, data, 16);
    assert(data.skip(20) =~= unit_bytes(w));
    units_read_back_from_bytes(w);
    names_read_back(files);
}

/// Units are written with their lower byte first, and read so.
pub proof fn the_lower_byte_comes_first(w: Seq<u16>, b: Seq<u8>, i: int)
    ensures
        0 <= i < w.len() ==> unit_bytes(w)[2 * i] + unit_bytes(w)[2 * i + 1] * 0x100 == w[i],
        0 <= i && 2 * i + 1 < b.len() ==> units_of_bytes(b)[i] == b[2 * i] + b[2 * i + 1] * 0x100,
        unit_bytes(w).len() == 2 * w.len(),
{
    if 0 <= i < w.len() {
        assert((2 * i) / 2 == i && (2 * i) % 2 == 0);
        assert((2 * i + 1) / 2 == i && (2 * i + 1) % 2 == 1);
    }
}

/// A character of the first plane is one unit, its own number; any other is a pair from which its
/// number is made up.
pub proof fn characters_are_written_by_their_numbers(c: char)
    ensures
        c as u32 <= 0xFFFF ==> units(c).len() == 1 && units(c)[0] == c as u32,
        c as u32 > 0xFFFF ==> units(c).len() == 2 && 0xD800 <= units(c)[0] <= 0xDBFF && 0xDC00
            <= units(c)[1] <= 0xDFFF && 0x10000 + (units(c)[0] - 0xD800) * 0x400 + (units(c)[1]
            - 0xDC00) == c as u32,
{
    if c as u32 > 0xFFFF {
        let n = (c as u32 - 0x10000) as int;
        assert(0 <= n < 0x100000);
        assert(0 <= n / 0x400 < 0x400);
        assert((n / 0x400) * 0x400 + n % 0x400 == n);
    }
}

/// A file list says that its names begin behind the header of twenty bytes and are of two bytes a
/// unit; each name ends with a zero, and one more zero ends the list.
pub proof fn a_file_list_has_its_header(files: Seq<Seq<char>>)
    ensures
        file_list(files).len() >= 20,
        le32_at(file_list(files), 0) == 20,
        le32_at(file_list(files), 16) == 1,
        forall|i: int| 4 <= i < 16 ==> #[trigger] file_list(files)[i] == 0,
        file_list(files).skip(20) == unit_bytes(listed_names(files).push(0u16)),
        listed_names(Seq::empty()).len() == 0,
        files.len() > 0 ==> listed_names(files) == encode_utf16(files[0]).push(0u16)
            + listed_names(files.drop_first()),
{
    let data = file_list(files);
    assert(data.subrange(0, 4) =~= le32_bytes(20));
    assert(data.subrange(16, 20) =~= le32_bytes(1));
    le32_read_back(20, data, 0);
    le32_read_back(1, data, 16);
    assert(data.skip(20) =~= unit_bytes(listed_names(files).push(0u16)));
}

/// Half of a pair that stands alone is no text, and is shown by the mark for what cannot be read;
/// what follows it is read all the same.
pub proof fn half_a_pair_cannot_be_read(u: u16, rest: Seq<u16>)
    requires
        0xD800 <= u <= 0xDFFF,
        rest.len() > 0 ==> !(0xDC00 <= rest[0] <= 0xDFFF),
    ensures
        decode_utf16(seq![u] + rest) is None,
        decode_lossy(seq![u] + rest) == seq!['\u{FFFD}'] + decode_lossy(rest),
{
    let w = seq![u] + rest;
    assert(w[0] == u);
    if rest.len() > 0 {
        assert(w[1] == rest[0]);
    }
    assert(w.skip(1) =~= rest);
}

} // verus!
