//! Version numbers and build times, and which of two is newer.
use crate::numerals::{a_number_is_read_back, decimal, decimal_denotes, digits_value, is_digit};
use crate::numerals::{parse_number, parsed, the_first_different_digit_decides, value_of_digit};
use crate::text::{ascii_lower, first_position, first_position_holds, pieces_lie_between};
use crate::text::{before_first, byte_len, char_lists, chars_of, copy_text, find_from};
use crate::text::{eq_but_case, pieces, same_but_case, split_at_each, text_between, trim, trimmed};
use crate::text::{text_of, with_replaced};
use vstd::prelude::*;
use vstd::utf8::encode_scalar;

verus! {

/// How two things compare.
#[derive(Clone, Copy, PartialEq, Eq, Structural)]
pub enum Order {
    Less,
    Equal,
    Greater,
}

/// How two numbers compare.
pub open spec fn number_order(a: int, b: int) -> Order {
    if a < b {
        Order::Less
    } else if a == b {
        Order::Equal
    } else {
        Order::Greater
    }
}

/// The order the other way round.
pub open spec fn reversed(o: Order) -> Order {
    match o {
        Order::Less => Order::Greater,
        Order::Equal => Order::Equal,
        Order::Greater => Order::Less,
    }
}

// ---------------------------------------------------------------------------
// Versions
// ---------------------------------------------------------------------------

/// A tag without the `v` that it may start with.
pub open spec fn without_v(s: Seq<char>) -> Seq<char> {
    if s.len() > 0 && (s[0] == 'v' || s[0] == 'V') {
        s.drop_first()
    } else {
        s
    }
}

/// A tag without the `v` that it may start with.
pub fn strip_tag_prefix(s: &str) -> (r: String)
    ensures
        r@ == without_v(s@),
{
    let v = chars_of(s);
    let n: usize = v.len();
    if n > 0 && (v[0] == 'v' || v[0] == 'V') {
        let r = text_between(&v, 1, n);
        assert(r@ =~= s@.drop_first());
        r
    } else {
        copy_text(s)
    }
}

/// The part of a version that is numbers and dots: up to the first hyphen, and
/// of that up to the first plus sign.
pub open spec fn numeric_part(s: Seq<char>) -> Seq<char> {
    before_first(before_first(s, '-'), '+')
}

/// Whether every piece is a number.
pub open spec fn all_numbers(p: Seq<Seq<char>>) -> bool {
    forall|i: int| 0 <= i < p.len() ==> parsed(#[trigger] p[i], 10, u64::MAX as nat) is Some
}

/// The numbers of a version, if it is made of numbers.
pub open spec fn version_numbers(s: Seq<char>) -> Option<Seq<u64>> {
    let p = pieces(numeric_part(s), '.');
    if all_numbers(p) {
        Some(Seq::new(p.len(), |i: int| parsed(p[i], 10, u64::MAX as nat)->0 as u64))
    } else {
        None
    }
}

/// The part of `v` before the first `c`.
fn cut_at(v: &Vec<char>, c: char) -> (r: Vec<char>)
    ensures
        r@ == before_first(v@, c),
{
    let n = find_from(v, c, 0);
    assert(v@.skip(0) =~= v@);
    let mut r: Vec<char> = Vec::new();
    for i in 0..n
        invariant
            n <= v@.len(),
            r@ == v@.take(i as int),
    {
        r.push(v[i]);
        assert(r@ =~= v@.take(i + 1));
    }
    r
}

/// The numbers of a version.
pub fn parse_simple_version(s: &str) -> (r: Option<Vec<u64>>)
    ensures
        match r {
            Some(v) => version_numbers(s@) == Some(v@) && v@.len() > 0,
            None => version_numbers(s@) is None,
        },
{
    let numeric = cut_at(&cut_at(&chars_of(s), '-'), '+');
    let parts = split_at_each(&numeric, '.');
    let ghost p = pieces(numeric_part(s@), '.');
    assert(char_lists(parts@) == p);
    let mut r: Vec<u64> = Vec::new();
    for i in 0..parts.len()
        invariant
            char_lists(parts@) == p,
            p == pieces(numeric_part(s@), '.'),
            r@.len() == i,
            forall|k: int|
                0 <= k < i ==> parsed(#[trigger] p[k], 10, u64::MAX as nat) == Some(r@[k] as nat),
    {
        assert(p[i as int] == parts@[i as int]@);
        match parse_number(&parts[i], 10, 0xFFFF_FFFF_FFFF_FFFF) {
            Some(n) => {
                r.push(n);
            },
            None => {
                assert(parsed(p[i as int], 10, u64::MAX as nat) is None);
                return None;
            },
        }
    }
    assert(p.len() == parts@.len());
    assert(all_numbers(p));
    assert(r@ =~= Seq::new(p.len(), |i: int| parsed(p[i], 10, u64::MAX as nat)->0 as u64));
    Some(r)
}

/// The number at a place of a version; what is not there counts as zero.
pub open spec fn place(v: Seq<u64>, i: int) -> int {
    if 0 <= i < v.len() {
        v[i] as int
    } else {
        0
    }
}

/// How two versions compare from the place `i` on.
pub open spec fn order_from(a: Seq<u64>, b: Seq<u64>, i: int) -> Order
    decreases (if a.len() > b.len() { a.len() } else { b.len() }) - i,
{
    if i >= a.len() && i >= b.len() {
        Order::Equal
    } else if place(a, i) != place(b, i) {
        number_order(place(a, i), place(b, i))
    } else {
        order_from(a, b, i + 1)
    }
}

/// How two versions compare: by the first place at which they differ.
pub open spec fn version_order(a: Seq<u64>, b: Seq<u64>) -> Order {
    order_from(a, b, 0)
}

/// How two versions compare.
pub fn compare_simple_version(a: &Vec<u64>, b: &Vec<u64>) -> (r: Order)
    ensures
        r == version_order(a@, b@),
{
    let n: usize = if a.len() > b.len() {
        a.len()
    } else {
        b.len()
    };
    for i in 0..n
        invariant
            n == if a@.len() > b@.len() {
                a@.len()
            } else {
                b@.len()
            },
            version_order(a@, b@) == order_from(a@, b@, i as int),
    {
        let x: u64 = if i < a.len() {
            a[i]
        } else {
            0
        };
        let y: u64 = if i < b.len() {
            b[i]
        } else {
            0
        };
        if x < y {
            return Order::Less;
        }
        if x > y {
            return Order::Greater;
        }
    }
    Order::Equal
}

/// Whether the tag of a release is newer than a version: they are not the same
/// text, and where both are made of numbers, its numbers are greater.
pub open spec fn is_newer_tag(current: Seq<char>, remote: Seq<char>) -> bool {
    let c = without_v(current);
    let r = without_v(remote);
    !same_but_case(c, r) && match (version_numbers(c), version_numbers(r)) {
        (Some(x), Some(y)) => version_order(y, x) == Order::Greater,
        _ => true,
    }
}

/// Whether the tag of a release is newer than a version.
pub fn is_remote_newer(current_version: &str, remote_tag: &str) -> (r: bool)
    ensures
        r == is_newer_tag(current_version@, remote_tag@),
{
    let c = strip_tag_prefix(current_version);
    let t = strip_tag_prefix(remote_tag);
    if eq_but_case(c.as_str(), t.as_str()) {
        return false;
    }
    match (parse_simple_version(c.as_str()), parse_simple_version(t.as_str())) {
        (Some(x), Some(y)) => match compare_simple_version(&y, &x) {
            Order::Greater => true,
            _ => false,
        },
        _ => true,
    }
}

proof fn order_from_reverses(a: Seq<u64>, b: Seq<u64>, i: int)
    requires
        0 <= i,
    ensures
        order_from(a, b, i) == reversed(order_from(b, a, i)),
    decreases (if a.len() > b.len() { a.len() } else { b.len() }) - i,
{
    if !(i >= a.len() && i >= b.len()) && place(a, i) == place(b, i) {
        order_from_reverses(a, b, i + 1);
    }
}

/// Versions compare one way round as they do the other.
pub proof fn version_order_reverses(a: Seq<u64>, b: Seq<u64>)
    ensures
        version_order(a, b) == reversed(version_order(b, a)),
        version_order(a, a) == Order::Equal,
{
    order_from_reverses(a, b, 0);
    order_from_reverses(a, a, 0);
}

proof fn order_from_is_transitive(a: Seq<u64>, b: Seq<u64>, c: Seq<u64>, i: int)
    requires
        0 <= i,
        order_from(a, b, i) != Order::Greater,
        order_from(b, c, i) != Order::Greater,
    ensures
        order_from(a, c, i) != Order::Greater,
        order_from(a, c, i) == Order::Equal ==> order_from(a, b, i) == Order::Equal && order_from(
            b,
            c,
            i,
        ) == Order::Equal,
    decreases a.len() + b.len() + c.len() - i,
{
    if i < a.len() + b.len() + c.len() {
        if place(a, i) == place(b, i) && place(b, i) == place(c, i) {
            order_steps(a, b, i);
            order_steps(b, c, i);
            order_steps(a, c, i);
            order_from_is_transitive(a, b, c, i + 1);
        }
    }
}

/// Equal places leave the order to the next place.
proof fn order_steps(a: Seq<u64>, b: Seq<u64>, i: int)
    requires
        0 <= i,
        place(a, i) == place(b, i),
    ensures
        order_from(a, b, i) == order_from(a, b, i + 1),
{
}

/// A version that is not older than another, which is not older than a third,
/// is not older than the third.
pub proof fn version_order_is_transitive(a: Seq<u64>, b: Seq<u64>, c: Seq<u64>)
    requires
        version_order(a, b) != Order::Greater,
        version_order(b, c) != Order::Greater,
    ensures
        version_order(a, c) != Order::Greater,
{
    order_from_is_transitive(a, b, c, 0);
}

/// No version is newer than itself, and of two versions made of numbers at
/// most one is newer than the other.
pub proof fn newer_tags_are_not_mutual(a: Seq<char>, b: Seq<char>)
    ensures
        !is_newer_tag(a, a),
        version_numbers(without_v(a)) is Some && version_numbers(without_v(b)) is Some ==> !(
        is_newer_tag(a, b) && is_newer_tag(b, a)),
{
    if version_numbers(without_v(a)) is Some && version_numbers(without_v(b)) is Some {
        version_order_reverses(
            version_numbers(without_v(a))->0,
            version_numbers(without_v(b))->0,
        );
    }
}

// ---------------------------------------------------------------------------
// Cutting text by bytes
// ---------------------------------------------------------------------------

/// How many characters of `s` it takes to fill `n` bytes.
pub open spec fn chars_in_bytes(s: Seq<char>, n: int) -> int
    decreases s.len(),
{
    if n <= 0 || s.len() == 0 {
        0
    } else {
        1 + chars_in_bytes(s.drop_first(), n - encode_scalar(s[0] as u32).len())
    }
}

/// Whether a character of `s` ends at byte `n`, or `s` is shorter than that.
pub open spec fn can_cut(s: Seq<char>, n: int) -> bool
    decreases s.len(),
{
    n == 0 || (n > 0 && (s.len() == 0 || can_cut(
        s.drop_first(),
        n - encode_scalar(s[0] as u32).len(),
    )))
}

/// The first `n` bytes of `s`; all of it where it is shorter.
pub open spec fn first_bytes(s: Seq<char>, n: int) -> Seq<char> {
    s.take(chars_in_bytes(s, n))
}

/// The number of bytes of a character.
fn width_of(c: char) -> (r: usize)
    ensures
        r == encode_scalar(c as u32).len(),
        1 <= r <= 4,
{
    let n: u32 = c as u32;
    if n <= 0x7F {
        1
    } else if n <= 0x7FF {
        2
    } else if n <= 0xFFFF {
        3
    } else {
        4
    }
}

/// The first `n` bytes of `s`, and whether `s` can be cut there.
pub fn cut_bytes(s: &str, n: usize) -> (r: (String, bool))
    ensures
        r.0@ == first_bytes(s@, n as int),
        r.1 == can_cut(s@, n as int),
{
    let v = chars_of(s);
    let mut i: usize = 0;
    let mut left: usize = n;
    let mut whole = true;
    assert(s@.skip(0) =~= s@);
    while i < v.len() && left > 0
        invariant
            v@ == s@,
            i <= v@.len(),
            chars_in_bytes(s@, n as int) == i + chars_in_bytes(s@.skip(i as int), left as int),
            can_cut(s@, n as int) == (whole && can_cut(s@.skip(i as int), left as int)),
        decreases v@.len() - i,
    {
        let ghost rest = s@.skip(i as int);
        assert(rest[0] == v@[i as int]);
        assert(rest.drop_first() =~= s@.skip(i + 1));
        let w = width_of(v[i]);
        if w > left {
            // The cut would go through this character.
            proof {
                cut_is_not_negative(rest.drop_first(), left - w);
            }
            whole = false;
            left = 0;
        } else {
            left = left - w;
        }
        i = i + 1;
    }
    proof {
        cut_is_not_negative(s@.skip(i as int), left as int);
    }
    let r = text_between(&v, 0, i);
    assert(r@ =~= s@.take(i as int));
    (r, whole)
}

proof fn cut_is_not_negative(s: Seq<char>, n: int)
    ensures
        chars_in_bytes(s, n) >= 0,
        chars_in_bytes(s, n) <= s.len(),
        n < 0 ==> !can_cut(s, n),
        n <= 0 ==> chars_in_bytes(s, n) == 0,
    decreases s.len(),
{
    if n > 0 && s.len() > 0 {
        cut_is_not_negative(s.drop_first(), n - encode_scalar(s[0] as u32).len());
    }
}

// ---------------------------------------------------------------------------
// Build times
// ---------------------------------------------------------------------------

/// The date and the minute of a time such as `2026-02-17T14:30:00Z`.
pub open spec fn minute_of(raw: Seq<char>) -> Seq<char> {
    if byte_len(raw) >= 16 {
        with_replaced(first_bytes(raw, 16), 'T', ' ')
    } else {
        raw
    }
}

/// The date and the minute of a time such as `2026-02-17T14:30:00Z`.
pub fn format_github_datetime(raw: &str) -> (r: String)
    requires
        can_cut(raw@, 16),
    ensures
        r@ == minute_of(raw@),
{
    if raw.as_bytes().len() >= 16 {
        let (core, _whole) = cut_bytes(raw, 16);
        crate::text::replace_char(core.as_str(), 'T', ' ')
    } else {
        copy_text(raw)
    }
}

/// Whether the place `i` of a time holds a separator.
pub open spec fn is_separator_place(i: int) -> bool {
    i == 4 || i == 7 || i == 10 || i == 13
}

/// Whether `t` starts with a date and a minute, such as `2026-02-17 14:30`.
pub open spec fn starts_with_minute(t: Seq<char>) -> bool {
    &&& t.len() >= 16
    &&& t[4] == '-' && t[7] == '-' && t[10] == ' ' && t[13] == ':'
    &&& forall|i: int|
        0 <= i < 16 && !is_separator_place(i) ==> #[trigger] is_digit(t[i], 10)
}

/// The digits of the date and the minute that `t` starts with.
pub open spec fn minute_digits(t: Seq<char>) -> Seq<char> {
    t.subrange(0, 4) + t.subrange(5, 7) + t.subrange(8, 10) + t.subrange(11, 13) + t.subrange(
        14,
        16,
    )
}

/// The digits of the date and the minute that `s` starts with, behind white
/// space, if it does.
pub open spec fn stamp_digits(s: Seq<char>) -> Option<Seq<char>> {
    if starts_with_minute(trimmed(s)) {
        Some(minute_digits(trimmed(s)))
    } else {
        None
    }
}

/// The digits of the date and the minute that `s` starts with.
pub fn normalize_timestamp_ymdhm(s: &str) -> (r: Option<String>)
    requires
        can_cut(trimmed(s@), 16),
    ensures
        match r {
            Some(t) => stamp_digits(s@) == Some(t@),
            None => stamp_digits(s@) is None,
        },
{
    let core = trim(s);
    let v = chars_of(core.as_str());
    let ghost t = trimmed(s@);
    if v.len() < 16 || v[4] != '-' || v[7] != '-' || v[10] != ' ' || v[13] != ':' {
        return None;
    }
    let mut out: Vec<char> = Vec::new();
    let mut i: usize = 0;
    while i < 16
        invariant
            i <= 16,
            v@ == t,
            t == trimmed(s@),
            v@.len() >= 16,
            t[4] == '-' && t[7] == '-' && t[10] == ' ' && t[13] == ':',
            forall|k: int| 0 <= k < i && !is_separator_place(k) ==> #[trigger] is_digit(t[k], 10),
            i <= 4 ==> out@ == t.subrange(0, i as int),
            i == 5 ==> out@ == t.subrange(0, 4),
            5 < i <= 7 ==> out@ == t.subrange(0, 4) + t.subrange(5, i as int),
            i == 8 ==> out@ == t.subrange(0, 4) + t.subrange(5, 7),
            8 < i <= 10 ==> out@ == t.subrange(0, 4) + t.subrange(5, 7) + t.subrange(8, i as int),
            i == 11 ==> out@ == t.subrange(0, 4) + t.subrange(5, 7) + t.subrange(8, 10),
            11 < i <= 13 ==> out@ == t.subrange(0, 4) + t.subrange(5, 7) + t.subrange(8, 10)
                + t.subrange(11, i as int),
            i == 14 ==> out@ == t.subrange(0, 4) + t.subrange(5, 7) + t.subrange(8, 10)
                + t.subrange(11, 13),
            14 < i <= 16 ==> out@ == t.subrange(0, 4) + t.subrange(5, 7) + t.subrange(8, 10)
                + t.subrange(11, 13) + t.subrange(14, i as int),
        decreases 16 - i,
    {
        if !(i == 4 || i == 7 || i == 10 || i == 13) {
            if value_of_digit(v[i]) >= 10 {
                assert(!is_digit(t[i as int], 10));
                return None;
            }
            assert(is_digit(t[i as int], 10));
            let ghost before = out@;
            out.push(v[i]);
            assert(out@ =~= before.push(t[i as int]));
        }
        i = i + 1;
    }
    assert(out@ =~= minute_digits(t));
    Some(text_of(out.as_slice()))
}

/// How two times compare that are given by their digits.
pub open spec fn stamp_order(a: Seq<char>, b: Seq<char>) -> Order {
    number_order(digits_value(a, 10) as int, digits_value(b, 10) as int)
}

/// The number of a run of decimal digits.
fn number_of(s: &str) -> (r: u64)
    requires
        s@.len() == 12,
        forall|i: int| 0 <= i < s@.len() ==> is_digit(#[trigger] s@[i], 10),
    ensures
        r == digits_value(s@, 10),
        r < 1_000_000_000_000,
{
    let v = chars_of(s);
    let ghost d = s@;
    let mut n: u64 = 0;
    let mut limit: u64 = 1;
    for i in 0..12
        invariant
            v@ == d,
            d.len() == 12,
            forall|k: int| 0 <= k < d.len() ==> is_digit(#[trigger] d[k], 10),
            n == digits_value(d.take(i as int), 10),
            n < limit,
            i == 0 ==> limit == 1,
            i == 1 ==> limit == 10,
            i == 2 ==> limit == 100,
            i == 3 ==> limit == 1_000,
            i == 4 ==> limit == 10_000,
            i == 5 ==> limit == 100_000,
            i == 6 ==> limit == 1_000_000,
            i == 7 ==> limit == 10_000_000,
            i == 8 ==> limit == 100_000_000,
            i == 9 ==> limit == 1_000_000_000,
            i == 10 ==> limit == 10_000_000_000,
            i == 11 ==> limit == 100_000_000_000,
            i == 12 ==> limit == 1_000_000_000_000,
    {
        assert(d.take(i + 1).drop_last() =~= d.take(i as int));
        assert(d.take(i + 1).last() == d[i as int]);
        assert(is_digit(d[i as int], 10));
        n = n * 10 + value_of_digit(v[i]);
        limit = limit * 10;
    }
    assert(d.take(12) =~= d);
    n
}

/// The digits of a time are twelve decimal digits.
proof fn stamp_is_digits(s: Seq<char>)
    requires
        stamp_digits(s) is Some,
    ensures
        (stamp_digits(s)->0).len() == 12,
        forall|i: int|
            0 <= i < 12 ==> is_digit(#[trigger] (stamp_digits(s)->0)[i], 10),
{
    let t = trimmed(s);
    let d = minute_digits(t);
    assert forall|i: int| 0 <= i < 12 implies is_digit(#[trigger] d[i], 10) by {
        let k = if i < 4 {
            i
        } else if i < 6 {
            i + 1
        } else if i < 8 {
            i + 2
        } else if i < 10 {
            i + 3
        } else {
            i + 4
        };
        assert(d[i] == t[k]);
        assert(!is_separator_place(k));
        assert(is_digit(t[k], 10));
    }
}

/// How two times compare, if both are times.
pub fn compare_timestamp_ymdhm(a: &str, b: &str) -> (r: Option<Order>)
    requires
        can_cut(trimmed(a@), 16),
        stamp_digits(a@) is Some ==> can_cut(trimmed(b@), 16),
    ensures
        r == match (stamp_digits(a@), stamp_digits(b@)) {
            (Some(x), Some(y)) => Some(stamp_order(x, y)),
            _ => None,
        },
{
    let x = match normalize_timestamp_ymdhm(a) {
        Some(x) => x,
        None => {
            return None;
        },
    };
    let y = match normalize_timestamp_ymdhm(b) {
        Some(y) => y,
        None => {
            return None;
        },
    };
    proof {
        stamp_is_digits(a@);
        stamp_is_digits(b@);
    }
    let m = number_of(x.as_str());
    let n = number_of(y.as_str());
    if m < n {
        Some(Order::Less)
    } else if m == n {
        Some(Order::Equal)
    } else {
        Some(Order::Greater)
    }
}

/// Whether a release is newer than a build, by their times; it counts as newer
/// where one of them is no time.
pub open spec fn is_newer_stamp(local: Seq<char>, remote: Seq<char>) -> bool {
    match (stamp_digits(remote), stamp_digits(local)) {
        (Some(x), Some(y)) => digits_value(x, 10) > digits_value(y, 10),
        _ => true,
    }
}

/// Whether a release is newer than a build, by their times.
pub fn is_remote_timestamp_newer(local_ts: &str, remote_ts: &str) -> (r: bool)
    requires
        can_cut(trimmed(remote_ts@), 16),
        stamp_digits(remote_ts@) is Some ==> can_cut(trimmed(local_ts@), 16),
    ensures
        r == is_newer_stamp(local_ts@, remote_ts@),
{
    match compare_timestamp_ymdhm(remote_ts, local_ts) {
        Some(Order::Greater) => true,
        Some(_) => false,
        None => true,
    }
}

/// No build is newer than itself by its time, and of two times at most one is
/// newer.
pub proof fn newer_stamps_are_not_mutual(a: Seq<char>, b: Seq<char>)
    requires
        stamp_digits(a) is Some,
        stamp_digits(b) is Some,
    ensures
        !is_newer_stamp(a, a),
        !(is_newer_stamp(a, b) && is_newer_stamp(b, a)),
{
}

// ---------------------------------------------------------------------------
// What makes a version newer
// ---------------------------------------------------------------------------

/// The first place at which two versions differ decides, wherever it is; a place that is not
/// there counts as zero.
pub proof fn the_first_different_place_decides(a: Seq<u64>, b: Seq<u64>, k: int)
    requires
        0 <= k < a.len(),
        forall|i: int|
            0 <= i < k ==> #[trigger] a[i] == if i < b.len() {
                b[i]
            } else {
                0
            },
        a[k] > if k < b.len() {
            b[k]
        } else {
            0
        },
    ensures
        version_order(a, b) == Order::Greater,
        version_order(b, a) == Order::Less,
{
    order_at_the_first_difference(a, b, 0, k);
    version_order_reverses(a, b);
}

proof fn order_at_the_first_difference(a: Seq<u64>, b: Seq<u64>, i: int, k: int)
    requires
        0 <= i <= k < a.len(),
        forall|j: int|
            0 <= j < k ==> #[trigger] a[j] == if j < b.len() {
                b[j]
            } else {
                0
            },
        a[k] > if k < b.len() {
            b[k]
        } else {
            0
        },
    ensures
        order_from(a, b, i) == Order::Greater,
    decreases k - i,
{
    if i < k {
        assert(a[i] == place(b, i));
        order_at_the_first_difference(a, b, i + 1, k);
    }
}

/// Versions are equal where no place differs, and nowhere else.
pub proof fn equal_versions_agree_everywhere(a: Seq<u64>, b: Seq<u64>)
    ensures
        version_order(a, b) == Order::Equal <==> {
            &&& forall|i: int|
                0 <= i < a.len() ==> #[trigger] a[i] == if i < b.len() {
                    b[i]
                } else {
                    0
                }
            &&& forall|i: int| a.len() <= i < b.len() ==> #[trigger] b[i] == 0
        },
{
    equal_from(a, b, 0);
    if version_order(a, b) == Order::Equal {
        assert forall|i: int| 0 <= i < a.len() implies #[trigger] a[i] == if i < b.len() {
            b[i]
        } else {
            0
        } by {
            assert(place(a, i) == place(b, i));
        }
        assert forall|i: int| a.len() <= i < b.len() implies #[trigger] b[i] == 0 by {
            assert(place(a, i) == place(b, i));
        }
    }
    if (forall|i: int|
        0 <= i < a.len() ==> #[trigger] a[i] == if i < b.len() {
            b[i]
        } else {
            0
        }) && (forall|i: int| a.len() <= i < b.len() ==> #[trigger] b[i] == 0) {
        assert forall|i: int| 0 <= i implies #[trigger] place(a, i) == place(b, i) by {
            if i < a.len() {
                assert(a[i] == place(b, i));
            } else if i < b.len() {
                assert(b[i] == 0);
            }
        }
    }
}

proof fn equal_from(a: Seq<u64>, b: Seq<u64>, i: int)
    requires
        0 <= i,
    ensures
        order_from(a, b, i) == Order::Equal <==> forall|k: int|
            i <= k ==> #[trigger] place(a, k) == place(b, k),
    decreases (if a.len() > b.len() { a.len() } else { b.len() }) - i,
{
    if !(i >= a.len() && i >= b.len()) {
        equal_from(a, b, i + 1);
        if place(a, i) == place(b, i) && (forall|k: int|
            i + 1 <= k ==> #[trigger] place(a, k) == place(b, k)) {
            assert forall|k: int| i <= k implies #[trigger] place(a, k) == place(b, k) by {}
        }
        if forall|k: int| i <= k ==> #[trigger] place(a, k) == place(b, k) {
            assert(place(a, i) == place(b, i));
            assert forall|k: int| i + 1 <= k implies #[trigger] place(a, k) == place(b, k) by {}
        }
    }
}

/// Numbers with dots between them.
pub open spec fn dotted(v: Seq<u64>) -> Seq<char>
    decreases v.len(),
{
    if v.len() <= 1 {
        decimal(v[0] as nat)
    } else {
        decimal(v[0] as nat) + seq!['.'] + dotted(v.drop_first())
    }
}

/// Digits and dots hold no sign.
proof fn dotted_is_plain(v: Seq<u64>)
    requires
        v.len() > 0,
    ensures
        dotted(v).len() > 0,
        '0' <= dotted(v)[0] <= '9',
        forall|i: int|
            0 <= i < dotted(v).len() ==> (#[trigger] dotted(v)[i] == '.' || '0' <= dotted(v)[i]
                <= '9'),
    decreases v.len(),
{
    let d = decimal(v[0] as nat);
    a_number_is_read_back(v[0] as nat, u64::MAX as nat);
    decimal_denotes(v[0] as nat);
    if v.len() > 1 {
        dotted_is_plain(v.drop_first());
        let rest = dotted(v.drop_first());
        let s = dotted(v);
        assert forall|i: int| 0 <= i < s.len() implies (#[trigger] s[i] == '.' || '0' <= s[i]
            <= '9') by {
            if i < d.len() {
                assert(s[i] == d[i]);
            } else if i > d.len() {
                assert(s[i] == rest[i - d.len() - 1]);
            }
        }
        assert(s[0] == d[0]);
    }
}

proof fn pieces_of_dotted(v: Seq<u64>)
    requires
        v.len() > 0,
    ensures
        pieces(dotted(v), '.') == Seq::new(v.len(), |i: int| decimal(v[i] as nat)),
    decreases v.len(),
{
    let d = decimal(v[0] as nat);
    a_number_is_read_back(v[0] as nat, u64::MAX as nat);
    let all = Seq::new(v.len(), |i: int| decimal(v[i] as nat));
    assert forall|i: int| 0 <= i < d.len() implies #[trigger] d[i] != '.' by {
        assert('0' <= d[i] <= '9');
    }
    if v.len() > 1 {
        let rest = v.drop_first();
        pieces_of_dotted(rest);
        pieces_lie_between(d, '.', dotted(rest));
        assert(pieces(dotted(v), '.') =~= all);
    } else {
        pieces_lie_between(d, '.', Seq::empty());
        assert(pieces(dotted(v), '.') =~= all);
    }
}

/// A version that is written out is read back, whatever follows it behind a hyphen or a plus
/// sign.
pub proof fn a_version_is_read_back(v: Seq<u64>, rest: Seq<char>)
    requires
        v.len() > 0,
    ensures
        version_numbers(dotted(v)) == Some(v),
        version_numbers(dotted(v) + seq!['-'] + rest) == Some(v),
        version_numbers(dotted(v) + seq!['+'] + rest) == Some(v),
{
    let d = dotted(v);
    dotted_is_plain(v);
    assert forall|i: int| 0 <= i < d.len() implies #[trigger] d[i] != '-' && d[i] != '+' by {
        assert(d[i] == '.' || '0' <= d[i] <= '9');
    }
    pieces_lie_between(d, '-', rest);
    pieces_lie_between(d, '+', rest);
    let plus = d + seq!['+'] + rest;
    first_position_holds(plus, '-');
    let cut = first_position(plus, '-');
    assert(plus[d.len() as int] == '+');
    assert(cut > d.len()) by {
        if cut <= d.len() {
            if cut < d.len() {
                assert(plus[cut] == d[cut]);
            }
        }
    }
    assert(plus.take(cut) =~= d + seq!['+'] + rest.take(cut - d.len() - 1));
    pieces_lie_between(d, '+', rest.take(cut - d.len() - 1));
    assert(numeric_part(d) == d);
    assert(numeric_part(d + seq!['-'] + rest) == d);
    assert(numeric_part(plus) == d);
    pieces_of_dotted(v);
    let p = pieces(d, '.');
    assert forall|i: int| 0 <= i < p.len() implies parsed(#[trigger] p[i], 10, u64::MAX as nat)
        == Some(v[i] as nat) by {
        a_number_is_read_back(v[i] as nat, u64::MAX as nat);
    }
    let read = Seq::new(p.len(), |i: int| parsed(p[i], 10, u64::MAX as nat)->0 as u64);
    assert(read =~= v);
}

/// A release is newer where the first place that differs is greater, wherever that is and
/// whether the tag begins with a `v` or not; and it is not newer the other way round.
pub proof fn a_greater_version_is_newer(a: Seq<u64>, b: Seq<u64>, k: int)
    requires
        a.len() > 0,
        0 <= k < b.len(),
        forall|i: int|
            0 <= i < k ==> #[trigger] b[i] == if i < a.len() {
                a[i]
            } else {
                0
            },
        b[k] > if k < a.len() {
            a[k]
        } else {
            0
        },
    ensures
        is_newer_tag(dotted(a), dotted(b)),
        is_newer_tag(dotted(a), seq!['v'] + dotted(b)),
        is_newer_tag(seq!['V'] + dotted(a), dotted(b)),
        !is_newer_tag(dotted(b), dotted(a)),
        !is_newer_tag(dotted(b), seq!['v'] + dotted(a)),
{
    the_first_different_place_decides(b, a, k);
    dotted_is_plain(a);
    dotted_is_plain(b);
    a_version_is_read_back(a, Seq::empty());
    a_version_is_read_back(b, Seq::empty());
    let x = dotted(a);
    let y = dotted(b);
    assert((seq!['v'] + y).drop_first() =~= y);
    assert((seq!['V'] + x).drop_first() =~= x);
    assert((seq!['v'] + x).drop_first() =~= x);
    if same_but_case(x, y) {
        let l = ascii_lower(x);
        assert(l =~= x) by {
            assert forall|i: int| 0 <= i < x.len() implies l[i] == x[i] by {
                assert(x[i] == '.' || '0' <= x[i] <= '9');
            }
        }
        let m = ascii_lower(y);
        assert(m =~= y) by {
            assert forall|i: int| 0 <= i < y.len() implies m[i] == y[i] by {
                assert(y[i] == '.' || '0' <= y[i] <= '9');
            }
        }
        assert(a == b);
        version_order_reverses(a, b);
    }
}

/// A tag that is no version is newer than every version that is not the same text, and so is every
/// tag where what runs is no version.
pub proof fn an_unreadable_tag_is_newer(current: Seq<char>, remote: Seq<char>)
    requires
        version_numbers(without_v(remote)) is None || version_numbers(without_v(current)) is None,
        ascii_lower(without_v(current)) != ascii_lower(without_v(remote)),
    ensures
        is_newer_tag(current, remote),
{
}

/// Whether a text is a date and a minute, such as `2026-02-17 14:30`, with white space around it
/// or none.
pub open spec fn is_minute(s: Seq<char>) -> bool {
    let t = trimmed(s);
    &&& t.len() >= 16
    &&& t[4] == '-' && t[7] == '-' && t[10] == ' ' && t[13] == ':'
    &&& forall|i: int|
        0 <= i < 16 && i != 4 && i != 7 && i != 10 && i != 13 ==> '0' <= #[trigger] t[i] <= '9'
}

/// Of two times the one is later that has the greater digit where they first differ; what
/// follows the minute does not count.
pub proof fn the_later_time_is_newer(local: Seq<char>, remote: Seq<char>, k: int)
    requires
        is_minute(local),
        is_minute(remote),
        0 <= k < 16,
        trimmed(local).take(k) == trimmed(remote).take(k),
        trimmed(local)[k] < trimmed(remote)[k],
    ensures
        is_newer_stamp(local, remote),
        !is_newer_stamp(remote, local),
{
    let a = trimmed(local);
    let b = trimmed(remote);
    minutes_have_digits(local);
    minutes_have_digits(remote);
    let x = minute_digits(a);
    let y = minute_digits(b);
    let n = if k < 4 {
        k
    } else if k < 7 {
        k - 1
    } else if k < 10 {
        k - 2
    } else if k < 13 {
        k - 3
    } else {
        k - 4
    };
    assert(x[n] == a[k] && y[n] == b[k]);
    assert(x.take(n) =~= y.take(n)) by {
        assert forall|i: int| 0 <= i < n implies x[i] == y[i] by {
            let j = if i < 4 {
                i
            } else if i < 6 {
                i + 1
            } else if i < 8 {
                i + 2
            } else if i < 10 {
                i + 3
            } else {
                i + 4
            };
            assert(x[i] == a[j] && y[i] == b[j]);
            assert(a.take(k)[j] == b.take(k)[j]);
        }
    }
    the_first_different_digit_decides(x, y, n);
}

/// Times that agree up to the minute are equally new.
pub proof fn the_same_minute_is_not_newer(local: Seq<char>, remote: Seq<char>)
    requires
        is_minute(local),
        is_minute(remote),
        trimmed(local).take(16) == trimmed(remote).take(16),
    ensures
        !is_newer_stamp(local, remote),
{
    minutes_have_digits(local);
    minutes_have_digits(remote);
    let a = trimmed(local);
    let b = trimmed(remote);
    assert forall|i: int| 0 <= i < 16 implies a[i] == b[i] by {
        assert(a.take(16)[i] == b.take(16)[i]);
    }
    assert(minute_digits(a) =~= minute_digits(b));
}

/// What is no time counts as newer, and everything counts as newer than it.
pub proof fn what_is_no_time_is_newer(local: Seq<char>, remote: Seq<char>)
    requires
        !is_minute(local) || !is_minute(remote),
    ensures
        is_newer_stamp(local, remote),
{
    if stamp_digits(local) is Some {
        digits_make_a_minute(local);
    }
    if stamp_digits(remote) is Some {
        digits_make_a_minute(remote);
    }
}

proof fn digits_make_a_minute(s: Seq<char>)
    requires
        stamp_digits(s) is Some,
    ensures
        is_minute(s),
{
    let t = trimmed(s);
    assert forall|i: int| 0 <= i < 16 && i != 4 && i != 7 && i != 10 && i != 13 implies '0'
        <= #[trigger] t[i] <= '9' by {
        assert(!is_separator_place(i));
        assert(is_digit(t[i], 10));
    }
}

proof fn minutes_have_digits(s: Seq<char>)
    requires
        is_minute(s),
    ensures
        stamp_digits(s) == Some(minute_digits(trimmed(s))),
        minute_digits(trimmed(s)).len() == 12,
        forall|i: int|
            0 <= i < 12 ==> '0' <= #[trigger] minute_digits(trimmed(s))[i] <= '9',
{
    let t = trimmed(s);
    assert forall|i: int| 0 <= i < 16 && !is_separator_place(i) implies #[trigger] is_digit(
        t[i],
        10,
    ) by {
        assert('0' <= t[i] <= '9');
    }
    stamp_is_digits(s);
    let d = minute_digits(t);
    assert forall|i: int| 0 <= i < 12 implies '0' <= #[trigger] d[i] <= '9' by {
        assert(is_digit(d[i], 10));
    }
}

/// Whether every character of a text takes one byte.
pub open spec fn is_plain_text(s: Seq<char>) -> bool {
    forall|i: int| 0 <= i < s.len() ==> '\0' <= #[trigger] s[i] <= '\u{7f}'
}

/// In a text whose characters take one byte each, bytes are counted as characters are.
pub proof fn plain_texts_are_cut_by_characters(s: Seq<char>, n: int)
    requires
        is_plain_text(s),
        0 <= n <= s.len(),
    ensures
        first_bytes(s, n) == s.take(n),
        can_cut(s, n),
        byte_len(s) == s.len(),
    decreases s.len(),
{
    plain_bytes(s, n);
    vstd::utf8::is_ascii_chars_encode_utf8(s);
}

proof fn plain_bytes(s: Seq<char>, n: int)
    requires
        is_plain_text(s),
        0 <= n <= s.len(),
    ensures
        chars_in_bytes(s, n) == n,
        can_cut(s, n),
    decreases s.len(),
{
    if n > 0 {
        let t = s.drop_first();
        assert forall|i: int| 0 <= i < t.len() implies '\0' <= #[trigger] t[i] <= '\u{7f}' by {
            assert(t[i] == s[i + 1]);
        }
        assert(s[0] <= '\u{7f}');
        one_byte(s[0]);
        plain_bytes(t, n - 1);
    }
}

proof fn one_byte(c: char)
    requires
        c <= '\u{7f}',
    ensures
        encode_scalar(c as u32).len() == 1,
{
}

/// The time of a release is shown up to the minute, with a space before the time of day; what is
/// shorter is shown as it is.
pub proof fn a_release_is_dated_to_the_minute(raw: Seq<char>)
    requires
        is_plain_text(raw),
    ensures
        raw.len() >= 16 ==> minute_of(raw).len() == 16 && forall|i: int|
            0 <= i < 16 ==> #[trigger] minute_of(raw)[i] == if raw[i] == 'T' {
                ' '
            } else {
                raw[i]
            },
        raw.len() < 16 ==> minute_of(raw) == raw,
{
    if raw.len() >= 16 {
        plain_texts_are_cut_by_characters(raw, 16);
    } else {
        plain_texts_are_cut_by_characters(raw, 0);
    }
}

/// A text whose characters take one byte each can be cut anywhere.
pub proof fn plain_texts_can_be_cut(s: Seq<char>, n: int)
    requires
        is_plain_text(s),
        n >= 0,
    ensures
        can_cut(s, n),
    decreases s.len(),
{
    if n > 0 && s.len() > 0 {
        let t = s.drop_first();
        assert forall|i: int| 0 <= i < t.len() implies '\0' <= #[trigger] t[i] <= '\u{7f}' by {
            assert(t[i] == s[i + 1]);
        }
        assert(s[0] <= '\u{7f}');
        one_byte(s[0]);
        plain_texts_can_be_cut(t, n - 1);
    }
}

/// A version one of whose parts is no number is no version.
pub proof fn every_part_of_a_version_is_a_number(part: Seq<char>, w: Seq<u64>)
    requires
        w.len() > 0,
        forall|i: int|
            0 <= i < part.len() ==> #[trigger] part[i] != '.' && part[i] != '-' && part[i] != '+',
        part.len() == 0 || exists|i: int|
            0 <= i < part.len() && !('0' <= #[trigger] part[i] <= '9'),
    ensures
        version_numbers(part) is None,
        version_numbers(part + seq!['.'] + dotted(w)) is None,
{
    let s = part + seq!['.'] + dotted(w);
    dotted_is_plain(w);
    let d = dotted(w);
    assert forall|i: int| 0 <= i < s.len() implies #[trigger] s[i] != '-' && s[i] != '+' by {
        if i < part.len() {
            assert(s[i] == part[i]);
        } else if i > part.len() {
            assert(s[i] == d[i - part.len() - 1]);
            assert(d[i - part.len() - 1] == '.' || '0' <= d[i - part.len() - 1] <= '9');
        }
    }
    pieces_lie_between(s, '-', Seq::empty());
    pieces_lie_between(s, '+', Seq::empty());
    pieces_lie_between(part, '-', Seq::empty());
    pieces_lie_between(part, '+', Seq::empty());
    pieces_lie_between(part, '.', d);
    assert(pieces(s, '.')[0] == part);
    assert(pieces(part, '.')[0] == part);
    if part.len() > 0 {
        let i = choose|i: int| 0 <= i < part.len() && !('0' <= #[trigger] part[i] <= '9');
        assert(part[0] != '+');
        crate::numerals::only_digits_make_a_number(part, u64::MAX as nat, i);
    } else {
        crate::numerals::only_digits_make_a_number(part, u64::MAX as nat, 0);
    }
}

/// The digits of a time are those of its date and its minute, in their order.
pub proof fn a_time_is_read_by_its_digits(s: Seq<char>)
    requires
        is_minute(s),
    ensures
        stamp_digits(s) matches Some(d) && d.len() == 12 && d == trimmed(s).subrange(0, 4)
            + trimmed(s).subrange(5, 7) + trimmed(s).subrange(8, 10) + trimmed(s).subrange(11, 13)
            + trimmed(s).subrange(14, 16),
{
    minutes_have_digits(s);
}

/// Times compare by the first digit that differs, and are equal where none does.
pub proof fn times_compare_by_the_first_different_digit(a: Seq<char>, b: Seq<char>, k: int)
    requires
        a.len() == b.len(),
        forall|i: int| 0 <= i < a.len() ==> '0' <= #[trigger] a[i] <= '9',
        forall|i: int| 0 <= i < b.len() ==> '0' <= #[trigger] b[i] <= '9',
    ensures
        0 <= k < a.len() && a.take(k) == b.take(k) && a[k] < b[k] ==> stamp_order(a, b)
            == Order::Less && stamp_order(b, a) == Order::Greater,
        stamp_order(a, a) == Order::Equal,
{
    if 0 <= k < a.len() && a.take(k) == b.take(k) && a[k] < b[k] {
        the_first_different_digit_decides(a, b, k);
    }
}

} // verus!
