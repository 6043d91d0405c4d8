//! Numbers in decimal and hexadecimal notation.
use crate::text::chars_of;
use vstd::prelude::*;
use vstd::string::StringExecFns;

verus! {

// ---------------------------------------------------------------------------
// Writing
// ---------------------------------------------------------------------------

/// The digit `d` of a notation with at most sixteen digits, in small letters.
pub open spec fn digit_char(d: nat) -> char {
    if d < 10 {
        (48 + d) as u8 as char
    } else {
        (87 + d) as u8 as char
    }
}

/// The decimal notation of `n`, without leading zeros.
pub open spec fn decimal(n: nat) -> Seq<char>
    decreases n,
{
    if n < 10 {
        seq![digit_char(n)]
    } else {
        decimal(n / 10).push(digit_char(n % 10))
    }
}

/// `s` with as many zeros put before it as bring it to `width` characters.
pub open spec fn zero_padded(s: Seq<char>, width: nat) -> Seq<char> {
    if s.len() < width {
        Seq::new((width - s.len()) as nat, |i: int| '0') + s
    } else {
        s
    }
}

/// The decimal digit `d`.
pub fn digit(d: u64) -> (r: char)
    requires
        d < 16,
    ensures
        r == digit_char(d as nat),
{
    if d < 10 {
        (48 + d as u8) as char
    } else {
        (87 + d as u8) as char
    }
}

/// The decimal notation of `n`.
pub fn to_decimal(n: u64) -> (r: String)
    ensures
        r@ == decimal(n as nat),
    decreases n,
{
    if n < 10 {
        let mut r = String::new();
        r.push(digit(n));
        assert(r@ =~= decimal(n as nat));
        r
    } else {
        let mut r = to_decimal(n / 10);
        r.push(digit(n % 10));
        r
    }
}

/// The decimal notation of `n`, with leading zeros up to `width` digits.
pub fn to_padded(n: u64, width: usize) -> (r: String)
    ensures
        r@ == zero_padded(decimal(n as nat), width as nat),
{
    let body = to_decimal(n);
    let chars = chars_of(body.as_str());
    let mut r = String::new();
    let mut have: usize = chars.len();
    while have < width
        invariant
            chars@ == decimal(n as nat),
            chars@.len() <= have,
            have <= width || have == chars@.len(),
            r@ == Seq::new((have - chars@.len()) as nat, |i: int| '0'),
        decreases width - have,
    {
        r.push('0');
        have = have + 1;
        assert(r@ =~= Seq::new((have - chars@.len()) as nat, |i: int| '0'));
    }
    r.append(body.as_str());
    assert(r@ =~= zero_padded(decimal(n as nat), width as nat));
    r
}

// ---------------------------------------------------------------------------
// Reading
// ---------------------------------------------------------------------------

/// Whether `c` is a digit of the given base (at most sixteen), letters of
/// either case.
pub open spec fn is_digit(c: char, base: nat) -> bool {
    digit_value(c) < base
}

/// The value of a digit; 99 for what is no digit in any base.
pub open spec fn digit_value(c: char) -> nat {
    if '0' <= c && c <= '9' {
        (c as u32 - 48) as nat
    } else if 'a' <= c && c <= 'f' {
        (c as u32 - 87) as nat
    } else if 'A' <= c && c <= 'F' {
        (c as u32 - 55) as nat
    } else {
        99
    }
}

/// The number that a run of digits stands for.
pub open spec fn digits_value(s: Seq<char>, base: nat) -> nat
    decreases s.len(),
{
    if s.len() == 0 {
        0
    } else {
        digits_value(s.drop_last(), base) * base + digit_value(s.last())
    }
}

/// Whether `s` is a run of at least one digit.
pub open spec fn is_number(s: Seq<char>, base: nat) -> bool {
    s.len() > 0 && forall|i: int| 0 <= i < s.len() ==> is_digit(#[trigger] s[i], base)
}

/// `s` without the one plus sign that may stand before a number.
pub open spec fn without_plus(s: Seq<char>) -> Seq<char> {
    if s.len() > 0 && s[0] == '+' {
        s.drop_first()
    } else {
        s
    }
}

/// The number up to `limit` that `s` denotes in the given base: an optional
/// plus sign and then digits alone.
pub open spec fn parsed(s: Seq<char>, base: nat, limit: nat) -> Option<nat> {
    let d = without_plus(s);
    if is_number(d, base) && digits_value(d, base) <= limit {
        Some(digits_value(d, base))
    } else {
        None
    }
}

/// A shorter run of digits stands for no larger number.
proof fn digits_value_grows(s: Seq<char>, n: int, base: nat)
    requires
        0 <= n <= s.len(),
        base >= 1,
    ensures
        digits_value(s.take(n), base) <= digits_value(s, base),
    decreases s.len() - n,
{
    if n < s.len() {
        let t = s.take(n + 1);
        assert(t.drop_last() =~= s.take(n));
        assert(digits_value(t, base) >= digits_value(s.take(n), base)) by (nonlinear_arith)
            requires
                digits_value(t, base) == digits_value(s.take(n), base) * base + digit_value(
                    t.last(),
                ),
                base >= 1,
        ;
        digits_value_grows(s, n + 1, base);
    } else {
        assert(s.take(n) =~= s);
    }
}

/// The value of a digit; 99 for what is no digit in any base.
pub fn value_of_digit(c: char) -> (r: u64)
    ensures
        r == digit_value(c),
{
    if c >= '0' && c <= '9' {
        (c as u32 - 48) as u64
    } else if c >= 'a' && c <= 'f' {
        (c as u32 - 87) as u64
    } else if c >= 'A' && c <= 'F' {
        (c as u32 - 55) as u64
    } else {
        99
    }
}

/// The number up to `limit` that `s` denotes in the given base, if it does.
pub fn parse_number(s: &Vec<char>, base: u64, limit: u64) -> (r: Option<u64>)
    requires
        2 <= base <= 16,
    ensures
        match r {
            Some(n) => parsed(s@, base as nat, limit as nat) == Some(n as nat),
            None => parsed(s@, base as nat, limit as nat) is None,
        },
{
    let from: usize = if s.len() > 0 && s[0] == '+' {
        1
    } else {
        0
    };
    let ghost d = without_plus(s@);
    assert(d =~= s@.skip(from as int));
    if from == s.len() {
        return None;
    }
    let mut acc: u64 = 0;
    let mut i: usize = from;
    assert(d.take(0) =~= Seq::<char>::empty());
    while i < s.len()
        invariant
            2 <= base <= 16,
            from <= i <= s@.len(),
            d == without_plus(s@),
            d == s@.skip(from as int),
            d.len() > 0,
            acc <= limit,
            acc == digits_value(d.take(i - from), base as nat),
            forall|k: int| 0 <= k < i - from ==> is_digit(#[trigger] d[k], base as nat),
        decreases s@.len() - i,
    {
        let v = value_of_digit(s[i]);
        assert(d[i - from] == s@[i as int]);
        if v >= base {
            assert(!is_digit(d[i - from], base as nat));
            return None;
        }
        let ghost t = d.take(i - from + 1);
        assert(t.drop_last() =~= d.take(i - from));
        assert(digits_value(t, base as nat) == acc as nat * base as nat + v as nat);
        proof {
            digits_value_grows(d, i - from + 1, base as nat);
        }
        let scaled: Option<u64> = acc.checked_mul(base);
        match scaled {
            None => {
                return None;
            },
            Some(m) => {
                let sum: Option<u64> = m.checked_add(v);
                match sum {
                    None => {
                        return None;
                    },
                    Some(n) => {
                        if n > limit {
                            return None;
                        }
                        acc = n;
                    },
                }
            },
        }
        i = i + 1;
    }
    assert(d.take(d.len() as int) =~= d);
    Some(acc)
}

/// The decimal notation of `n` is a number, and it denotes `n`.
pub proof fn decimal_denotes(n: nat)
    ensures
        is_number(decimal(n), 10),
        digits_value(decimal(n), 10) == n,
    decreases n,
{
    let s = decimal(n);
    if n < 10 {
        assert(s.drop_last() =~= Seq::empty());
        assert(digits_value(s.drop_last(), 10) == 0);
        assert(s.last() == digit_char(n));
    } else {
        decimal_denotes(n / 10);
        assert(s.drop_last() =~= decimal(n / 10));
        assert(s.last() == digit_char(n % 10));
        assert forall|i: int| 0 <= i < s.len() implies is_digit(#[trigger] s[i], 10) by {
            if i < s.len() - 1 {
                assert(s[i] == decimal(n / 10)[i]);
            }
        }
    }
}

// ---------------------------------------------------------------------------
// Bytes
// ---------------------------------------------------------------------------

/// The two hexadecimal digits of each byte, in small letters.
pub open spec fn hex(data: Seq<u8>) -> Seq<char> {
    Seq::new(
        data.len() * 2,
        |i: int|
            if i % 2 == 0 {
                digit_char((data[i / 2] / 16) as nat)
            } else {
                digit_char((data[i / 2] % 16) as nat)
            },
    )
}

/// The two hexadecimal digits of each byte, in small letters.
pub fn to_hex(data: &[u8]) -> (r: String)
    ensures
        r@ == hex(data@),
{
    let mut r = String::new();
    for i in 0..data.len()
        invariant
            r@ == hex(data@).take(2 * i as int),
    {
        let b: u64 = data[i] as u64;
        r.push(digit(b / 16));
        r.push(digit(b % 16));
        assert(r@ =~= hex(data@).take(2 * (i + 1)));
    }
    assert(hex(data@).take(2 * data@.len() as int) =~= hex(data@));
    r
}

/// The hexadecimal digits of bytes are no capitals.
pub proof fn hex_is_small(data: Seq<u8>)
    ensures
        crate::text::ascii_lower(hex(data)) == hex(data),
{
    assert forall|i: int| 0 <= i < hex(data).len() implies crate::text::small_letter(hex(data)[i])
        == #[trigger] hex(data)[i] by {
        digit_is_small(data[i / 2]);
    }
    assert(crate::text::ascii_lower(hex(data)) =~= hex(data));
}

proof fn digit_is_small(b: u8)
    ensures
        crate::text::small_letter(digit_char((b / 16) as nat)) == digit_char((b / 16) as nat),
        crate::text::small_letter(digit_char((b % 16) as nat)) == digit_char((b % 16) as nat),
        digit_value(digit_char((b / 16) as nat)) == b / 16,
        digit_value(digit_char((b % 16) as nat)) == b % 16,
{
}

/// Bytes with the same hexadecimal digits are the same.
pub proof fn hex_is_unique(a: Seq<u8>, b: Seq<u8>)
    requires
        hex(a) == hex(b),
    ensures
        a == b,
{
    assert(hex(a).len() == a.len() * 2 && hex(b).len() == b.len() * 2);
    assert forall|i: int| 0 <= i < a.len() implies a[i] == b[i] by {
        assert((2 * i) / 2 == i && (2 * i) % 2 == 0);
        assert((2 * i + 1) / 2 == i && (2 * i + 1) % 2 == 1);
        assert(hex(a)[2 * i] == hex(b)[2 * i]);
        assert(hex(a)[2 * i + 1] == hex(b)[2 * i + 1]);
        digit_is_small(a[i]);
        digit_is_small(b[i]);
        assert(hex(a)[2 * i] == digit_char((a[i] / 16) as nat));
        assert(hex(b)[2 * i] == digit_char((b[i] / 16) as nat));
        assert(hex(a)[2 * i + 1] == digit_char((a[i] % 16) as nat));
        assert(hex(b)[2 * i + 1] == digit_char((b[i] % 16) as nat));
    }
    assert(a =~= b);
}

/// The value of two bytes, the less significant one first.
pub open spec fn le16(lo: u8, hi: u8) -> u16 {
    (lo + hi * 256) as u16
}

/// The four bytes of `n`, the least significant one first.
pub open spec fn le32_bytes(n: u32) -> Seq<u8> {
    seq![
        (n % 256) as u8,
        (n / 256 % 256) as u8,
        (n / 65536 % 256) as u8,
        (n / 16777216 % 256) as u8,
    ]
}

/// The value of the four bytes of `data` at `at`, the least significant one
/// first.
pub open spec fn le32_at(data: Seq<u8>, at: int) -> int {
    data[at] + data[at + 1] * 256 + data[at + 2] * 65536 + data[at + 3] * 16777216
}

/// Reading four bytes gives back the number that was written as them.
pub proof fn le32_read_back(n: u32, data: Seq<u8>, at: int)
    requires
        0 <= at <= data.len() - 4,
        data.subrange(at, at + 4) == le32_bytes(n),
    ensures
        le32_at(data, at) == n,
{
    let s = data.subrange(at, at + 4);
    assert(s[0] == data[at] && s[1] == data[at + 1] && s[2] == data[at + 2] && s[3] == data[at
        + 3]);
    assert(n == n % 256 + (n / 256 % 256) * 256 + (n / 65536 % 256) * 65536 + (n / 16777216 % 256)
        * 16777216);
}

/// Appends the four bytes of `n`.
pub fn push_le32(out: &mut Vec<u8>, n: u32)
    ensures
        final(out)@ == old(out)@ + le32_bytes(n),
{
    out.push((n % 256) as u8);
    out.push((n / 256 % 256) as u8);
    out.push((n / 65536 % 256) as u8);
    out.push((n / 16777216 % 256) as u8);
    assert(out@ =~= old(out)@ + le32_bytes(n));
}

/// The value of the four bytes of `data` at `at`.
pub fn read_le32(data: &[u8], at: usize) -> (r: u32)
    requires
        at + 4 <= data@.len(),
    ensures
        r == le32_at(data@, at as int),
{
    data[at] as u32 + data[at + 1] as u32 * 256 + data[at + 2] as u32 * 65536 + data[at + 3] as u32
        * 16777216
}

/// The value of the two bytes of `data` at `at`.
pub fn read_le16(data: &[u8], at: usize) -> (r: u16)
    requires
        at + 2 <= data@.len(),
    ensures
        r == le16(data@[at as int], data@[at + 1]),
{
    data[at] as u16 + data[at + 1] as u16 * 256
}

/// A number that was written is read back, with a plus sign before it and without, unless it is
/// beyond the limit; it is written by the ten digits, the last of which tells what is left of it
/// once tens are taken off.
pub proof fn a_number_is_read_back(n: nat, limit: nat)
    ensures
        parsed(decimal(n), 10, limit) == if n <= limit {
            Some(n)
        } else {
            None
        },
        parsed(seq!['+'] + decimal(n), 10, limit) == if n <= limit {
            Some(n)
        } else {
            None
        },
        forall|i: int| 0 <= i < decimal(n).len() ==> '0' <= #[trigger] decimal(n)[i] <= '9',
        decimal(n).last() as u32 == 48 + n % 10,
{
    decimal_denotes(n);
    let d = decimal(n);
    assert forall|i: int| 0 <= i < d.len() implies '0' <= #[trigger] d[i] <= '9' by {
        assert(is_digit(d[i], 10));
    }
    assert(d[0] != '+');
    assert((seq!['+'] + d).drop_first() =~= d);
}

/// Of two runs of digits of one length the one that has the greater digit where they first differ
/// stands for the greater number.
pub proof fn the_first_different_digit_decides(a: Seq<char>, b: Seq<char>, k: int)
    requires
        a.len() == b.len(),
        forall|i: int| 0 <= i < a.len() ==> '0' <= #[trigger] a[i] <= '9',
        forall|i: int| 0 <= i < b.len() ==> '0' <= #[trigger] b[i] <= '9',
        0 <= k < a.len(),
        a.take(k) == b.take(k),
        a[k] < b[k],
    ensures
        digits_value(a, 10) < digits_value(b, 10),
    decreases a.len(),
{
    let x = a.drop_last();
    let y = b.drop_last();
    assert('0' <= a[a.len() - 1] <= '9' && '0' <= b[b.len() - 1] <= '9');
    if k == a.len() - 1 {
        assert(x =~= a.take(k));
        assert(y =~= b.take(k));
    } else {
        assert(x.take(k) =~= a.take(k));
        assert(y.take(k) =~= b.take(k));
        assert forall|i: int| 0 <= i < x.len() implies '0' <= #[trigger] x[i] <= '9' by {
            assert(x[i] == a[i]);
        }
        assert forall|i: int| 0 <= i < y.len() implies '0' <= #[trigger] y[i] <= '9' by {
            assert(y[i] == b[i]);
        }
        the_first_different_digit_decides(x, y, k);
    }
}

/// Zeros before a number do not change it: they bring it to the wanted width and no further.
pub proof fn zeros_before_a_number_do_not_count(n: nat, width: nat)
    ensures
        zero_padded(decimal(n), width).len() == if decimal(n).len() < width {
            width
        } else {
            decimal(n).len()
        },
        digits_value(zero_padded(decimal(n), width), 10) == n,
        parsed(zero_padded(decimal(n), width), 10, n) == Some(n),
        decimal(n).len() >= width ==> zero_padded(decimal(n), width) == decimal(n),
{
    decimal_denotes(n);
    a_number_is_read_back(n, n);
    let d = decimal(n);
    let p = zero_padded(d, width);
    if d.len() < width {
        let zeros = Seq::new((width - d.len()) as nat, |i: int| '0');
        zeros_in_front(zeros, d);
        assert forall|i: int| 0 <= i < p.len() implies is_digit(#[trigger] p[i], 10) by {
            if i >= zeros.len() {
                assert(p[i] == d[i - zeros.len()]);
                assert(is_digit(d[i - zeros.len()], 10));
            }
        }
        assert(p[0] == '0');
    }
}

proof fn zeros_in_front(zeros: Seq<char>, s: Seq<char>)
    requires
        forall|i: int| 0 <= i < zeros.len() ==> zeros[i] == '0',
    ensures
        digits_value(zeros + s, 10) == digits_value(s, 10),
    decreases zeros.len() + s.len(),
{
    let all = zeros + s;
    if s.len() > 0 {
        zeros_in_front(zeros, s.drop_last());
        assert(all.drop_last() =~= zeros + s.drop_last());
    } else if zeros.len() > 0 {
        zeros_in_front(zeros.drop_last(), s);
        assert(all.drop_last() =~= zeros.drop_last() + s);
        assert(all.last() == zeros.last());
    }
}

/// A number below a power of ten has no more digits than that power has zeros.
pub proof fn short_numbers_have_few_digits(n: nat, width: nat)
    requires
        width == 2 || width == 4,
        width == 2 ==> n <= 99,
        width == 4 ==> n <= 9999,
    ensures
        decimal(n).len() <= width,
{
    reveal_with_fuel(decimal, 5);
}

/// Each byte is written by two hexadecimal digits that stand for it.
pub proof fn hex_stands_for_the_bytes(data: Seq<u8>, i: int)
    requires
        0 <= i < data.len(),
    ensures
        hex(data).len() == 2 * data.len(),
        digit_value(hex(data)[2 * i]) * 16 + digit_value(hex(data)[2 * i + 1]) == data[i],
        is_digit(hex(data)[2 * i], 16),
        is_digit(hex(data)[2 * i + 1], 16),
{
    assert((2 * i) / 2 == i && (2 * i) % 2 == 0);
    assert((2 * i + 1) / 2 == i && (2 * i + 1) % 2 == 1);
    digit_reads_back((data[i] / 16) as nat);
    digit_reads_back((data[i] % 16) as nat);
}

proof fn digit_reads_back(d: nat)
    requires
        d < 16,
    ensures
        digit_value(digit_char(d)) == d,
{
}

/// What holds anything but digits behind one plus sign, or nothing at all, is no number.
pub proof fn only_digits_make_a_number(s: Seq<char>, limit: nat, i: int)
    ensures
        s.len() == 0 ==> parsed(s, 10, limit) is None,
        s == seq!['+'] ==> parsed(s, 10, limit) is None,
        0 < i < s.len() && !('0' <= s[i] <= '9') ==> parsed(s, 10, limit) is None,
        s.len() > 0 && s[0] != '+' && !('0' <= s[0] <= '9') ==> parsed(s, 10, limit) is None,
{
    let d = without_plus(s);
    if 0 < i < s.len() && !('0' <= s[i] <= '9') {
        let k = if s[0] == '+' {
            i - 1
        } else {
            i
        };
        assert(d[k] == s[i]);
        no_digit(s[i]);
        assert(!is_digit(d[k], 10));
    }
    if s.len() > 0 && s[0] != '+' && !('0' <= s[0] <= '9') {
        no_digit(s[0]);
        assert(!is_digit(d[0], 10));
    }
}

proof fn no_digit(c: char)
    requires
        !('0' <= c <= '9'),
    ensures
        !is_digit(c, 10),
{
}

/// Numbers of 32 bits are written with their lowest byte first.
pub proof fn the_lowest_byte_comes_first(n: u32)
    ensures
        le32_bytes(n).len() == 4,
        le32_bytes(n)[0] + le32_bytes(n)[1] * 0x100 + le32_bytes(n)[2] * 0x1_0000 + le32_bytes(n)[3]
            * 0x100_0000 == n,
{
    let b = le32_bytes(n);
    le32_read_back(n, b, 0);
    assert(b.subrange(0, 4) =~= b);
    assert(b[0] == n % 0x100);
    assert(b[1] == n / 0x100 % 0x100);
    assert(b[2] == n / 0x1_0000 % 0x100);
    assert(b[3] == n / 0x100_0000);
}

} // verus!
