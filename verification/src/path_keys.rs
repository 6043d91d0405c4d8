//! Paths as text: the forms in which two spellings of one path are compared,
//! and the form in which a path is shown.
use crate::text::{ascii_lower, ascii_lower_twice, begins_with, byte_len, chars_of, found_at};
use crate::text::{occurs_at, replace_char, small_letter, text_between, text_eq, to_ascii_lower};
use crate::text::{with_replaced};
use vstd::prelude::*;
use vstd::utf8::encode_utf8;

verus! {

/// `s` without `p` at its start.
pub open spec fn without_prefix(s: Seq<char>, p: Seq<char>) -> Seq<char> {
    if begins_with(s, p) {
        s.skip(p.len() as int)
    } else {
        s
    }
}

/// `s` without the backslashes at its end, but never shorter than three bytes
/// for their sake.
pub open spec fn without_backslashes(s: Seq<char>) -> Seq<char>
    decreases s.len(),
{
    if byte_len(s) > 3 && s.len() > 0 && s.last() == '\\' {
        without_backslashes(s.drop_last())
    } else {
        s
    }
}

/// The form in which Windows paths are compared: backslashes throughout, no
/// marker for long or native paths at the start, no backslash at the end, small
/// letters.
pub open spec fn windows_key(s: Seq<char>) -> Seq<char> {
    ascii_lower(
        without_backslashes(
            without_prefix(without_prefix(with_replaced(s, '/', '\\'), "\\\\?\\"@), "\\??\\"@),
        ),
    )
}

/// `s` without `p` at its start.
fn strip_prefix(s: &str, p: &str) -> (r: String)
    ensures
        r@ == without_prefix(s@, p@),
{
    let v = chars_of(s);
    let q = chars_of(p);
    if found_at(&v, &q, 0) {
        let n: usize = v.len();
        let r = text_between(&v, q.len(), n);
        assert(r@ =~= s@.skip(p@.len() as int));
        r
    } else {
        let r = text_between(&v, 0, v.len());
        assert(r@ =~= s@);
        r
    }
}

/// `s` without the backslashes at its end.
fn strip_backslashes(s: &str) -> (r: String)
    ensures
        r@ == without_backslashes(s@),
{
    let v = chars_of(s);
    let mut n: usize = v.len();
    assert(s@.take(n as int) =~= s@);
    loop
        invariant
            v@ == s@,
            n <= v@.len(),
            without_backslashes(s@) == without_backslashes(s@.take(n as int)),
        decreases n,
    {
        let part = text_between(&v, 0, n);
        assert(part@ =~= s@.take(n as int));
        if part.as_str().as_bytes().len() > 3 && n > 0 && v[n - 1] == '\\' {
            assert(s@.take(n as int).drop_last() =~= s@.take(n - 1));
            n = n - 1;
        } else {
            return part;
        }
    }
}

/// The form in which Windows paths are compared.
pub fn normalize_windows_path_for_compare(path: &str) -> (r: String)
    ensures
        r@ == windows_key(path@),
{
    let a = replace_char(path, '/', '\\');
    let b = strip_prefix(a.as_str(), "\\\\?\\");
    let c = strip_prefix(b.as_str(), "\\??\\");
    let d = strip_backslashes(c.as_str());
    to_ascii_lower(d.as_str())
}

/// Whether two texts are spellings of one Windows path.
pub fn windows_path_eq(a: &str, b: &str) -> (r: bool)
    ensures
        r == (windows_key(a@) == windows_key(b@)),
{
    text_eq(
        normalize_windows_path_for_compare(a).as_str(),
        normalize_windows_path_for_compare(b).as_str(),
    )
}

/// `s` without the separators at its end.
pub open spec fn without_separators(s: Seq<char>) -> Seq<char>
    decreases s.len(),
{
    if s.len() > 0 && (s.last() == '\\' || s.last() == '/') {
        without_separators(s.drop_last())
    } else {
        s
    }
}

/// `s` without the separators at its end.
pub fn strip_separators(s: &str) -> (r: String)
    ensures
        r@ == without_separators(s@),
{
    let v = chars_of(s);
    let mut n: usize = v.len();
    assert(s@.take(n as int) =~= s@);
    while n > 0 && (v[n - 1] == '\\' || v[n - 1] == '/')
        invariant
            v@ == s@,
            n <= v@.len(),
            without_separators(s@) == without_separators(s@.take(n as int)),
        decreases n,
    {
        assert(s@.take(n as int).drop_last() =~= s@.take(n - 1));
        n = n - 1;
    }
    let r = text_between(&v, 0, n);
    assert(r@ =~= s@.take(n as int));
    r
}

/// The form in which the directories of the tree are compared: no separator
/// at the end, small letters.
pub open spec fn tree_key(s: Seq<char>) -> Seq<char> {
    ascii_lower(without_separators(s))
}

/// The form in which the directories of the tree are compared.
pub fn normalize_tree_dir_key(path: &str) -> (r: String)
    ensures
        r@ == tree_key(path@),
{
    to_ascii_lower(strip_separators(path).as_str())
}

/// Whether two texts are spellings of one directory of the tree.
pub fn tree_dir_key_eq(a: &str, b: &str) -> (r: bool)
    ensures
        r == (tree_key(a@) == tree_key(b@)),
{
    text_eq(normalize_tree_dir_key(a).as_str(), normalize_tree_dir_key(b).as_str())
}

/// A path with slashes in place of backslashes, as it is shown.
pub fn format_path_display(path: &str) -> (r: String)
    ensures
        r@ == with_replaced(path@, '\\', '/'),
{
    replace_char(path, '\\', '/')
}

// ---------------------------------------------------------------------------
// Spellings that do not matter
// ---------------------------------------------------------------------------

/// Making letters small keeps every character that is no letter.
proof fn small_letter_keeps_others(c: char, d: char)
    requires
        !('A' <= d <= 'Z'),
        !('a' <= d <= 'z'),
    ensures
        small_letter(c) == d <==> c == d,
{
}

/// The case of the letters and separators at the end do not matter to the
/// tree: every spelling of a directory has one key.
pub proof fn tree_key_ignores_spelling(s: Seq<char>)
    ensures
        tree_key(ascii_lower(s)) == tree_key(s),
        tree_key(s.push('\\')) == tree_key(s),
        tree_key(s.push('/')) == tree_key(s),
        tree_key(tree_key(s)) == tree_key(s),
    decreases s.len(),
{
    assert(s.push('\\').drop_last() =~= s);
    assert(s.push('/').drop_last() =~= s);
    stripping_keeps_case(s);
    ascii_lower_twice(without_separators(s));
    stripping_twice(s);
    stripping_keeps_case(without_separators(s));
    assert(without_separators(ascii_lower(without_separators(s))) == ascii_lower(
        without_separators(without_separators(s)),
    ));
}

proof fn stripping_twice(s: Seq<char>)
    ensures
        without_separators(without_separators(s)) == without_separators(s),
    decreases s.len(),
{
    if s.len() > 0 && (s.last() == '\\' || s.last() == '/') {
        stripping_twice(s.drop_last());
    }
}

proof fn stripping_keeps_case(s: Seq<char>)
    ensures
        without_separators(ascii_lower(s)) == ascii_lower(without_separators(s)),
    decreases s.len(),
{
    if s.len() > 0 {
        small_letter_keeps_others(s.last(), '\\');
        small_letter_keeps_others(s.last(), '/');
        assert(ascii_lower(s).last() == small_letter(s.last()));
        assert(ascii_lower(s).drop_last() =~= ascii_lower(s.drop_last()));
        if s.last() == '\\' || s.last() == '/' {
            stripping_keeps_case(s.drop_last());
        }
    }
}

/// Small letters take as many bytes as capitals.
proof fn small_letters_keep_bytes(s: Seq<char>)
    ensures
        byte_len(ascii_lower(s)) == byte_len(s),
    decreases s.len(),
{
    if s.len() > 0 {
        let t = ascii_lower(s);
        assert(t.drop_first() =~= ascii_lower(s.drop_first()));
        assert(t[0] == small_letter(s[0]));
        small_letters_keep_bytes(s.drop_first());
        assert(encode_utf8(s) == vstd::utf8::encode_scalar(s[0] as u32) + encode_utf8(
            s.drop_first(),
        ));
        assert(encode_utf8(t) == vstd::utf8::encode_scalar(t[0] as u32) + encode_utf8(
            t.drop_first(),
        ));
    }
}

proof fn backslashes_keep_case(s: Seq<char>)
    ensures
        without_backslashes(ascii_lower(s)) == ascii_lower(without_backslashes(s)),
    decreases s.len(),
{
    small_letters_keep_bytes(s);
    if s.len() > 0 {
        small_letter_keeps_others(s.last(), '\\');
        assert(ascii_lower(s).last() == small_letter(s.last()));
        assert(ascii_lower(s).drop_last() =~= ascii_lower(s.drop_last()));
        if byte_len(s) > 3 && s.last() == '\\' {
            backslashes_keep_case(s.drop_last());
        }
    }
}

/// Taking off a prefix without letters commutes with making letters small.
proof fn prefix_keeps_case(s: Seq<char>, p: Seq<char>)
    requires
        forall|i: int|
            0 <= i < p.len() ==> !('A' <= #[trigger] p[i] <= 'Z') && !('a' <= p[i] <= 'z'),
    ensures
        without_prefix(ascii_lower(s), p) == ascii_lower(without_prefix(s, p)),
{
    let t = ascii_lower(s);
    if p.len() <= s.len() {
        assert forall|i: int| 0 <= i < p.len() implies (s[i] == p[i] <==> t[i] == p[i]) by {
            small_letter_keeps_others(s[i], p[i]);
        }
        if occurs_at(s, p, 0) {
            assert forall|i: int| 0 <= i < p.len() implies t[i] == p[i] by {
                assert(s.subrange(0, p.len() as int)[i] == s[i]);
            }
            assert(t.subrange(0, p.len() as int) =~= p);
        }
        if occurs_at(t, p, 0) {
            assert forall|i: int| 0 <= i < p.len() implies s[i] == p[i] by {
                assert(t.subrange(0, p.len() as int)[i] == t[i]);
            }
            assert(s.subrange(0, p.len() as int) =~= p);
        }
        assert(t.skip(p.len() as int) =~= ascii_lower(s.skip(p.len() as int)));
    }
}

/// Neither the case of the letters nor the direction of the slashes matters
/// to the comparison of Windows paths.
pub proof fn windows_key_ignores_spelling(s: Seq<char>)
    ensures
        windows_key(ascii_lower(s)) == windows_key(s),
        windows_key(with_replaced(s, '/', '\\')) == windows_key(s),
{
    let a = with_replaced(s, '/', '\\');
    assert(with_replaced(a, '/', '\\') =~= a);
    assert forall|i: int| 0 <= i < s.len() implies with_replaced(ascii_lower(s), '/', '\\')[i]
        == ascii_lower(a)[i] by {
        small_letter_keeps_others(s[i], '/');
    }
    assert(with_replaced(ascii_lower(s), '/', '\\') =~= ascii_lower(a));
    reveal_strlit("\\\\?\\");
    reveal_strlit("\\??\\");
    prefix_keeps_case(a, "\\\\?\\"@);
    let b = without_prefix(a, "\\\\?\\"@);
    prefix_keeps_case(b, "\\??\\"@);
    let c = without_prefix(b, "\\??\\"@);
    backslashes_keep_case(c);
    ascii_lower_twice(without_backslashes(c));
}

/// Paths that neither begin nor end with a separator are spellings of one Windows path where they
/// agree at every place but for the case of letters and the direction of slashes, and nowhere else.
pub proof fn windows_keys_tell_paths_apart(a: Seq<char>, b: Seq<char>)
    requires
        a.len() > 0,
        b.len() > 0,
        a[0] != '/' && a[0] != '\\',
        b[0] != '/' && b[0] != '\\',
        a.last() != '/' && a.last() != '\\',
        b.last() != '/' && b.last() != '\\',
    ensures
        windows_key(a) == windows_key(b) <==> a.len() == b.len() && forall|i: int|
            0 <= i < a.len() ==> (#[trigger] small_letter(a[i]) == small_letter(b[i]) || ((a[i]
                == '/' || a[i] == '\\') && (b[i] == '/' || b[i] == '\\'))),
{
    plain_key(a);
    plain_key(b);
    let x = windows_key(a);
    let y = windows_key(b);
    assert forall|i: int| 0 <= i < a.len() && i < b.len() implies (x[i] == y[i] <==> (small_letter(
        a[i],
    ) == small_letter(b[i]) || ((a[i] == '/' || a[i] == '\\') && (b[i] == '/' || b[i]
        == '\\')))) by {
        small_letter_keeps_others(a[i], '\\');
        small_letter_keeps_others(b[i], '\\');
        small_letter_keeps_others(a[i], '/');
        small_letter_keeps_others(b[i], '/');
    }
    if x == y {
        assert forall|i: int| 0 <= i < a.len() implies (#[trigger] small_letter(a[i])
            == small_letter(b[i]) || ((a[i] == '/' || a[i] == '\\') && (b[i] == '/' || b[i]
            == '\\'))) by {
            assert(x[i] == y[i]);
        }
    }
    if a.len() == b.len() && (forall|i: int|
        0 <= i < a.len() ==> (#[trigger] small_letter(a[i]) == small_letter(b[i]) || ((a[i] == '/'
            || a[i] == '\\') && (b[i] == '/' || b[i] == '\\')))) {
        assert forall|i: int| 0 <= i < a.len() implies x[i] == y[i] by {
            assert(small_letter(a[i]) == small_letter(b[i]) || ((a[i] == '/' || a[i] == '\\')
                && (b[i] == '/' || b[i] == '\\')));
        }
        assert(x =~= y);
    }
}

proof fn plain_key(s: Seq<char>)
    requires
        s.len() > 0,
        s[0] != '/' && s[0] != '\\',
        s.last() != '/' && s.last() != '\\',
    ensures
        windows_key(s) == ascii_lower(with_replaced(s, '/', '\\')),
        windows_key(s).len() == s.len(),
{
    reveal_strlit("\\\\?\\");
    reveal_strlit("\\??\\");
    let r = with_replaced(s, '/', '\\');
    assert(!begins_with(r, "\\\\?\\"@)) by {
        if begins_with(r, "\\\\?\\"@) {
            assert(r.subrange(0, 4)[0] == r[0]);
        }
    }
    assert(!begins_with(r, "\\??\\"@)) by {
        if begins_with(r, "\\??\\"@) {
            assert(r.subrange(0, 4)[0] == r[0]);
        }
    }
    assert(r.last() != '\\');
}

/// The mark of a long path does not count in the comparison.
pub proof fn the_mark_of_a_long_path_does_not_count(s: Seq<char>)
    requires
        s.len() > 0,
        s[0] != '/' && s[0] != '\\',
        s.last() != '/' && s.last() != '\\',
    ensures
        windows_key("\\\\?\\"@ + s) == windows_key(s),
        windows_key("\\??\\"@ + s) == windows_key(s),
{
    reveal_strlit("\\\\?\\");
    reveal_strlit("\\??\\");
    plain_key(s);
    let r = with_replaced(s, '/', '\\');
    let a = with_replaced("\\\\?\\"@ + s, '/', '\\');
    let b = with_replaced("\\??\\"@ + s, '/', '\\');
    assert(a =~= "\\\\?\\"@ + r);
    assert(b =~= "\\??\\"@ + r);
    assert(a.subrange(0, 4) =~= "\\\\?\\"@);
    assert(b.subrange(0, 4) =~= "\\??\\"@);
    assert(a.skip(4) =~= r);
    assert(b.skip(4) =~= r);
    assert(!begins_with(r, "\\??\\"@)) by {
        if begins_with(r, "\\??\\"@) {
            assert(r.subrange(0, 4)[0] == r[0]);
        }
    }
    assert(!begins_with(b, "\\\\?\\"@)) by {
        if begins_with(b, "\\\\?\\"@) {
            assert(b.subrange(0, 4)[1] == b[1]);
            assert(b[1] == '?');
        }
    }
    assert(r.last() != '\\');
}

/// Directories of the tree that do not end with a separator are one where they agree but for the
/// case of letters, and nowhere else.
pub proof fn tree_keys_tell_directories_apart(a: Seq<char>, b: Seq<char>)
    requires
        a.len() > 0,
        b.len() > 0,
        a.last() != '/' && a.last() != '\\',
        b.last() != '/' && b.last() != '\\',
    ensures
        tree_key(a) == tree_key(b) <==> a.len() == b.len() && forall|i: int|
            0 <= i < a.len() ==> #[trigger] small_letter(a[i]) == small_letter(b[i]),
{
    let x = tree_key(a);
    let y = tree_key(b);
    assert(x == ascii_lower(a) && y == ascii_lower(b));
    if x == y {
        assert forall|i: int| 0 <= i < a.len() implies #[trigger] small_letter(a[i])
            == small_letter(b[i]) by {
            assert(x[i] == y[i]);
        }
    }
    if a.len() == b.len() && (forall|i: int|
        0 <= i < a.len() ==> #[trigger] small_letter(a[i]) == small_letter(b[i])) {
        assert forall|i: int| 0 <= i < a.len() implies x[i] == y[i] by {
            assert(small_letter(a[i]) == small_letter(b[i]));
        }
        assert(x =~= y);
    }
}

/// Separators at the end are taken off, all of them and nothing else.
pub proof fn only_separators_are_taken_off(s: Seq<char>)
    ensures
        without_separators(s.push('/')) == without_separators(s),
        without_separators(s.push('\\')) == without_separators(s),
        s.len() > 0 && s.last() != '/' && s.last() != '\\' ==> without_separators(s) == s,
        without_separators(Seq::empty()).len() == 0,
{
    assert(s.push('/').drop_last() =~= s);
    assert(s.push('\\').drop_last() =~= s);
}

/// A backslash or a slash at the end does not count, but for the one that makes a drive a root.
pub proof fn a_separator_at_the_end_does_not_count(s: Seq<char>, letter: char)
    requires
        s.len() >= 3,
        s[0] != '/' && s[0] != '\\',
        s.last() != '/' && s.last() != '\\',
        letter != '/' && letter != '\\',
        '\0' <= letter <= '\u{7f}',
    ensures
        windows_key(s.push('\\')) == windows_key(s),
        windows_key(s.push('/')) == windows_key(s),
        windows_key(seq![letter, ':', '\\']) == seq![small_letter(letter), ':', '\\'],
{
    reveal_strlit("\\\\?\\");
    reveal_strlit("\\??\\");
    plain_key(s);
    let r = with_replaced(s, '/', '\\');
    let a = r.push('\\');
    assert(with_replaced(s.push('\\'), '/', '\\') =~= a);
    assert(with_replaced(s.push('/'), '/', '\\') =~= a);
    assert(a[0] == r[0]);
    no_mark(a);
    assert(a.drop_last() =~= r);
    assert(r.last() != '\\');
    bytes_are_many(a);
    let d = seq![letter, ':', '\\'];
    assert(with_replaced(d, '/', '\\') =~= d);
    no_mark(d);
    assert forall|i: int| 0 <= i < d.len() implies '\0' <= #[trigger] d[i] <= '\u{7f}' by {}
    vstd::utf8::is_ascii_chars_encode_utf8(d);
    assert(ascii_lower(d) =~= seq![small_letter(letter), ':', '\\']);
}

proof fn no_mark(s: Seq<char>)
    requires
        s.len() > 0,
        s[0] != '\\',
    ensures
        !begins_with(s, "\\\\?\\"@),
        !begins_with(s, "\\??\\"@),
{
    reveal_strlit("\\\\?\\");
    reveal_strlit("\\??\\");
    if s.len() >= 4 {
        assert(s.subrange(0, 4)[0] == s[0]);
    }
}

proof fn bytes_are_many(s: Seq<char>)
    ensures
        byte_len(s) >= s.len(),
    decreases s.len(),
{
    if s.len() > 0 {
        bytes_are_many(s.drop_first());
        assert(encode_utf8(s) == vstd::utf8::encode_scalar(s[0] as u32) + encode_utf8(
            s.drop_first(),
        ));
    }
}

} // verus!
