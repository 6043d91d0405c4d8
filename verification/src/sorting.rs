//! A stable sort by keys.
use crate::text::{chars_of, texts};
use vstd::prelude::*;

verus! {

/// What an item is sorted by: first its rank, then a list of numbers, compared
/// from the first on.
pub struct SortKey {
    pub rank: u8,
    pub value: Vec<i128>,
}

/// The view of a `SortKey`.
pub struct KeyView {
    pub rank: u8,
    pub value: Seq<i128>,
}

impl View for SortKey {
    type V = KeyView;

    open spec fn view(&self) -> KeyView {
        KeyView { rank: self.rank, value: self.value@ }
    }
}

/// The views of a list of keys.
pub open spec fn key_views(keys: Seq<SortKey>) -> Seq<KeyView> {
    Seq::new(keys.len(), |i: int| keys[i]@)
}

/// Whether `a` comes before `b` in the order of dictionaries.
pub open spec fn lex_less(a: Seq<i128>, b: Seq<i128>) -> bool
    decreases a.len(),
{
    if b.len() == 0 {
        false
    } else if a.len() == 0 {
        true
    } else {
        a[0] < b[0] || (a[0] == b[0] && lex_less(a.drop_first(), b.drop_first()))
    }
}

/// Whether the key `a` comes before the key `b`: by rank, and within one rank
/// by value, upwards or downwards.
pub open spec fn key_less(a: KeyView, b: KeyView, ascending: bool) -> bool {
    a.rank < b.rank || (a.rank == b.rank && if ascending {
        lex_less(a.value, b.value)
    } else {
        lex_less(b.value, a.value)
    })
}

/// Whether the item `i` comes before the item `j`: by key, and between equal
/// keys the one that came first.
pub open spec fn comes_before(keys: Seq<KeyView>, ascending: bool, i: int, j: int) -> bool {
    key_less(keys[i], keys[j], ascending) || (keys[i] == keys[j] && i < j)
}

/// Whether `order` lists the positions of all items, each once, in the order
/// of their keys.
pub open spec fn is_sorted_order(keys: Seq<KeyView>, ascending: bool, order: Seq<usize>) -> bool {
    &&& order.len() == keys.len()
    &&& forall|i: int| 0 <= i < order.len() ==> (#[trigger] order[i]) < keys.len()
    &&& forall|k: usize| k < keys.len() ==> order.contains(k)
    &&& forall|i: int, j: int|
        0 <= i < j < order.len() ==> comes_before(
            keys,
            ascending,
            #[trigger] order[i] as int,
            #[trigger] order[j] as int,
        )
}

proof fn lex_less_is_transitive(a: Seq<i128>, b: Seq<i128>, c: Seq<i128>)
    requires
        lex_less(a, b),
        lex_less(b, c),
    ensures
        lex_less(a, c),
    decreases a.len(),
{
    if a.len() > 0 && a[0] == b[0] && b[0] == c[0] {
        lex_less_is_transitive(a.drop_first(), b.drop_first(), c.drop_first());
    }
}

proof fn lex_less_is_total(a: Seq<i128>, b: Seq<i128>)
    ensures
        lex_less(a, b) || lex_less(b, a) || a == b,
        !(lex_less(a, b) && lex_less(b, a)),
        lex_less(a, b) ==> a != b,
    decreases a.len(),
{
    if a.len() > 0 && b.len() > 0 {
        lex_less_is_total(a.drop_first(), b.drop_first());
        if a[0] == b[0] && a.drop_first() == b.drop_first() {
            assert(a =~= seq![a[0]] + a.drop_first());
            assert(b =~= seq![b[0]] + b.drop_first());
        }
    } else if a.len() == 0 && b.len() == 0 {
        assert(a =~= b);
    }
}

/// The order of the items is a strict total order.
pub proof fn order_is_total(keys: Seq<KeyView>, ascending: bool, i: int, j: int, k: int)
    ensures
        comes_before(keys, ascending, i, j) || comes_before(keys, ascending, j, i) || i == j,
        !(comes_before(keys, ascending, i, j) && comes_before(keys, ascending, j, i)),
        comes_before(keys, ascending, i, j) && comes_before(keys, ascending, j, k) ==> comes_before(
            keys,
            ascending,
            i,
            k,
        ),
{
    let a = keys[i].value;
    let b = keys[j].value;
    let c = keys[k].value;
    lex_less_is_total(a, b);
    lex_less_is_total(b, c);
    lex_less_is_total(a, c);
    if lex_less(a, b) && lex_less(b, c) {
        lex_less_is_transitive(a, b, c);
    }
    if lex_less(c, b) && lex_less(b, a) {
        lex_less_is_transitive(c, b, a);
    }
}

/// Keys and direction leave one order only.
pub proof fn sorted_order_is_unique(
    keys: Seq<KeyView>,
    ascending: bool,
    a: Seq<usize>,
    b: Seq<usize>,
)
    requires
        is_sorted_order(keys, ascending, a),
        is_sorted_order(keys, ascending, b),
    ensures
        a == b,
{
    assert forall|i: int| 0 <= i < a.len() implies a[i] == b[i] by {
        first_difference_is_none(keys, ascending, a, b, i);
    }
    assert(a =~= b);
}

proof fn first_difference_is_none(
    keys: Seq<KeyView>,
    ascending: bool,
    a: Seq<usize>,
    b: Seq<usize>,
    i: int,
)
    requires
        is_sorted_order(keys, ascending, a),
        is_sorted_order(keys, ascending, b),
        0 <= i < a.len(),
    ensures
        a[i] == b[i],
    decreases i,
{
    assert forall|k: int| 0 <= k < i implies a[k] == b[k] by {
        first_difference_is_none(keys, ascending, a, b, k);
    }
    if a[i] != b[i] {
        // Each of the two comes later in the other list.
        let p = b.index_of(a[i]);
        let q = a.index_of(b[i]);
        assert(b.contains(a[i]) && a.contains(b[i]));
        assert(b[p] == a[i] && a[q] == b[i]);
        if p < i {
            assert(a[p] == a[i]);
            order_is_total(keys, ascending, a[p] as int, a[i] as int, 0);
        }
        if q < i {
            assert(b[q] == b[i]);
            order_is_total(keys, ascending, b[q] as int, b[i] as int, 0);
        }
        order_is_total(keys, ascending, a[i] as int, b[i] as int, 0);
    }
}

/// Whether `a` comes before `b` in the order of dictionaries.
fn lex_lt(a: &Vec<i128>, b: &Vec<i128>) -> (r: bool)
    ensures
        r == lex_less(a@, b@),
{
    let mut i: usize = 0;
    assert(a@.skip(0) =~= a@ && b@.skip(0) =~= b@);
    loop
        invariant
            i <= a@.len(),
            i <= b@.len(),
            lex_less(a@, b@) == lex_less(a@.skip(i as int), b@.skip(i as int)),
        decreases a@.len() - i,
    {
        if i >= b.len() {
            return false;
        }
        if i >= a.len() {
            return true;
        }
        if a[i] != b[i] {
            return a[i] < b[i];
        }
        assert(a@.skip(i as int).drop_first() =~= a@.skip(i + 1));
        assert(b@.skip(i as int).drop_first() =~= b@.skip(i + 1));
        i = i + 1;
    }
}

/// Whether the key `a` comes before the key `b`.
fn key_lt(a: &SortKey, b: &SortKey, ascending: bool) -> (r: bool)
    ensures
        r == key_less(a@, b@, ascending),
{
    if a.rank != b.rank {
        return a.rank < b.rank;
    }
    if ascending {
        lex_lt(&a.value, &b.value)
    } else {
        lex_lt(&b.value, &a.value)
    }
}

/// Whether `order` lists the positions from `lo` to `hi` in the order of
/// their keys.
spec fn sorts_range(
    keys: Seq<KeyView>,
    ascending: bool,
    order: Seq<usize>,
    lo: int,
    hi: int,
) -> bool {
    &&& order.len() == hi - lo
    &&& forall|i: int| 0 <= i < order.len() ==> lo <= (#[trigger] order[i]) < hi
    &&& forall|k: usize| lo <= k < hi ==> order.contains(k)
    &&& forall|i: int, j: int|
        0 <= i < j < order.len() ==> comes_before(
            keys,
            ascending,
            #[trigger] order[i] as int,
            #[trigger] order[j] as int,
        )
}

/// Merges the sorted lists of two neighbouring ranges.
fn merge(
    keys: &Vec<SortKey>,
    ascending: bool,
    a: &Vec<usize>,
    b: &Vec<usize>,
    Ghost(lo): Ghost<int>,
    Ghost(mid): Ghost<int>,
    Ghost(hi): Ghost<int>,
) -> (r: Vec<usize>)
    requires
        0 <= lo <= mid <= hi <= keys@.len(),
        sorts_range(key_views(keys@), ascending, a@, lo, mid),
        sorts_range(key_views(keys@), ascending, b@, mid, hi),
    ensures
        sorts_range(key_views(keys@), ascending, r@, lo, hi),
{
    let ghost kv = key_views(keys@);
    let mut r: Vec<usize> = Vec::new();
    let mut i: usize = 0;
    let mut j: usize = 0;
    while i < a.len() || j < b.len()
        invariant
            kv == key_views(keys@),
            0 <= lo <= mid <= hi <= keys@.len(),
            sorts_range(kv, ascending, a@, lo, mid),
            sorts_range(kv, ascending, b@, mid, hi),
            i <= a@.len(),
            j <= b@.len(),
            r@.len() == i + j,
            forall|x: int| 0 <= x < r@.len() ==> lo <= (#[trigger] r@[x]) < hi,
            forall|x: int| 0 <= x < i ==> r@.contains(#[trigger] a@[x]),
            forall|x: int| 0 <= x < j ==> r@.contains(#[trigger] b@[x]),
            forall|x: int, y: int|
                0 <= x < r@.len() && i <= y < a@.len() ==> comes_before(
                    kv,
                    ascending,
                    #[trigger] r@[x] as int,
                    #[trigger] a@[y] as int,
                ),
            forall|x: int, y: int|
                0 <= x < r@.len() && j <= y < b@.len() ==> comes_before(
                    kv,
                    ascending,
                    #[trigger] r@[x] as int,
                    #[trigger] b@[y] as int,
                ),
            forall|x: int, y: int|
                0 <= x < y < r@.len() ==> comes_before(
                    kv,
                    ascending,
                    #[trigger] r@[x] as int,
                    #[trigger] r@[y] as int,
                ),
        decreases a@.len() - i + b@.len() - j,
    {
        let from_a = if i >= a.len() {
            false
        } else if j >= b.len() {
            true
        } else {
            !key_lt(&keys[b[j]], &keys[a[i]], ascending)
        };
        let ghost before = r@;
        let next: usize = if from_a {
            a[i]
        } else {
            b[j]
        };
        r.push(next);
        proof {
            assert forall|x: int| 0 <= x < before.len() implies r@.contains(before[x]) by {
                assert(r@[x] == before[x]);
            }
            assert(r@[before.len() as int] == next);
            if from_a {
                assert forall|y: int| j <= y < b@.len() implies comes_before(
                    kv,
                    ascending,
                    next as int,
                    #[trigger] b@[y] as int,
                ) by {
                    order_is_total(kv, ascending, next as int, b@[j as int] as int, b@[y] as int);
                }
                assert forall|x: int| 0 <= x < i + 1 implies r@.contains(#[trigger] a@[x]) by {
                    if x < i {
                        assert(before.contains(a@[x]));
                        assert(r@.contains(before[before.index_of(a@[x])]));
                    }
                }
                assert forall|x: int| 0 <= x < j implies r@.contains(#[trigger] b@[x]) by {
                    assert(before.contains(b@[x]));
                    assert(r@.contains(before[before.index_of(b@[x])]));
                }
            } else {
                assert forall|y: int| i <= y < a@.len() implies comes_before(
                    kv,
                    ascending,
                    next as int,
                    #[trigger] a@[y] as int,
                ) by {
                    order_is_total(kv, ascending, next as int, a@[i as int] as int, a@[y] as int);
                }
                assert forall|x: int| 0 <= x < j + 1 implies r@.contains(#[trigger] b@[x]) by {
                    if x < j {
                        assert(before.contains(b@[x]));
                        assert(r@.contains(before[before.index_of(b@[x])]));
                    }
                }
                assert forall|x: int| 0 <= x < i implies r@.contains(#[trigger] a@[x]) by {
                    assert(before.contains(a@[x]));
                    assert(r@.contains(before[before.index_of(a@[x])]));
                }
            }
        }
        if from_a {
            i = i + 1;
        } else {
            j = j + 1;
        }
    }
    assert forall|k: usize| lo <= k < hi implies r@.contains(k) by {
        if k < mid {
            assert(a@.contains(k));
            assert(r@.contains(a@[a@.index_of(k)]));
        } else {
            assert(b@.contains(k));
            assert(r@.contains(b@[b@.index_of(k)]));
        }
    }
    r
}

/// The positions from `lo` to `hi` in the order of their keys.
fn sort_range(keys: &Vec<SortKey>, ascending: bool, lo: usize, hi: usize) -> (r: Vec<usize>)
    requires
        lo <= hi <= keys@.len(),
    ensures
        sorts_range(key_views(keys@), ascending, r@, lo as int, hi as int),
    decreases hi - lo,
{
    if hi - lo <= 1 {
        let mut r: Vec<usize> = Vec::new();
        if lo < hi {
            r.push(lo);
            assert(r@[0] == lo);
        }
        return r;
    }
    let mid: usize = lo + (hi - lo) / 2;
    let a = sort_range(keys, ascending, lo, mid);
    let b = sort_range(keys, ascending, mid, hi);
    merge(keys, ascending, &a, &b, Ghost(lo as int), Ghost(mid as int), Ghost(hi as int))
}

/// The positions of all items in the order of their keys.
pub fn sorted_order(keys: &Vec<SortKey>, ascending: bool) -> (r: Vec<usize>)
    ensures
        is_sorted_order(key_views(keys@), ascending, r@),
{
    sort_range(keys, ascending, 0, keys.len())
}

/// The numbers of the characters of a text, which order texts as their bytes
/// do.
pub open spec fn text_value(s: Seq<char>) -> Seq<i128> {
    Seq::new(s.len(), |i: int| s[i] as u32 as i128)
}

/// The numbers of the characters of a text.
pub fn value_of_text(s: &str) -> (r: Vec<i128>)
    ensures
        r@ == text_value(s@),
{
    let v = chars_of(s);
    let mut r: Vec<i128> = Vec::new();
    for i in 0..v.len()
        invariant
            v@ == s@,
            r@ == text_value(s@).take(i as int),
    {
        r.push(v[i] as u32 as i128);
        assert(r@ =~= text_value(s@).take(i + 1));
    }
    assert(text_value(s@).take(s@.len() as int) =~= text_value(s@));
    r
}

/// The keys of a list of texts.
pub open spec fn text_keys(list: Seq<Seq<char>>) -> Seq<KeyView> {
    Seq::new(list.len(), |i: int| KeyView { rank: 0, value: text_value(list[i]) })
}

/// The positions of a list of texts in their order.
pub fn sorted_texts(list: &Vec<String>) -> (r: Vec<usize>)
    ensures
        is_sorted_order(text_keys(texts(list@)), true, r@),
{
    let mut keys: Vec<SortKey> = Vec::new();
    let ghost all = text_keys(texts(list@));
    for i in 0..list.len()
        invariant
            all == text_keys(texts(list@)),
            key_views(keys@) == all.take(i as int),
    {
        let ghost before = key_views(keys@);
        keys.push(SortKey { rank: 0, value: value_of_text(list[i].as_str()) });
        assert(key_views(keys@) =~= before.push(all[i as int]));
        assert(key_views(keys@) =~= all.take(i + 1));
    }
    assert(all.take(list@.len() as int) =~= all);
    sorted_order(&keys, true)
}

/// Of two lists that come in order and agree up to the place `k`, the first ends there or goes on
/// with no greater number.
pub proof fn lists_in_order_do_not_fall(a: Seq<i128>, b: Seq<i128>, k: int)
    requires
        lex_less(a, b) || a == b,
        0 <= k <= a.len(),
        k <= b.len(),
        a.take(k) == b.take(k),
    ensures
        k == a.len() || (k < b.len() && a[k] <= b[k]),
    decreases k,
{
    if k > 0 && a != b {
        assert(a[0] == a.take(k)[0] && b[0] == b.take(k)[0]);
        assert(a.drop_first().take(k - 1) =~= a.take(k).drop_first());
        assert(b.drop_first().take(k - 1) =~= b.take(k).drop_first());
        lists_in_order_do_not_fall(a.drop_first(), b.drop_first(), k - 1);
    }
}

/// Characters come in the order of their numbers.
pub proof fn characters_are_ordered_by_number(c: char, d: char)
    ensures
        c <= d <==> c as u32 as i128 <= d as u32 as i128,
{
}

/// Sorted texts do not fall: of two neighbours or any others that agree up to the place `k`, the
/// first ends there or goes on with no later character. Each text is listed once, and equal texts
/// stay in their order.
pub proof fn sorted_texts_do_not_fall(list: Seq<Seq<char>>, order: Seq<usize>, i: int, j: int, k: int)
    requires
        is_sorted_order(text_keys(list), true, order),
        0 <= i < j < order.len(),
        0 <= k <= list[order[i] as int].len(),
        k <= list[order[j] as int].len(),
        list[order[i] as int].take(k) == list[order[j] as int].take(k),
    ensures
        order.len() == list.len(),
        order[i] != order[j],
        ({
            let a = list[order[i] as int];
            let b = list[order[j] as int];
            k == a.len() || (k < b.len() && a[k] <= b[k])
        }),
        list[order[i] as int] == list[order[j] as int] ==> order[i] < order[j],
{
    let keys = text_keys(list);
    let (p, q) = (order[i] as int, order[j] as int);
    assert(comes_before(keys, true, p, q));
    order_is_total(keys, true, p, q, 0);
    let a = text_value(list[p]);
    let b = text_value(list[q]);
    assert(a.take(k) =~= b.take(k)) by {
        assert forall|m: int| 0 <= m < k implies a[m] == b[m] by {
            assert(list[p][m] == list[p].take(k)[m] && list[q][m] == list[q].take(k)[m]);
        }
    }
    lists_in_order_do_not_fall(a, b, k);
    characters_are_ordered_by_number(list[p][k], list[q][k]);
}

} // verus!
