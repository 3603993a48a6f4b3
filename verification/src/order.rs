//! Sorting that keeps equal items in the order in which they came.
use vstd::prelude::*;

use crate::text::{chars_of, string_of, texts};

verus! {

/// How far from the end `x` moves to the front of `s[..i]`: past the items that it goes before.
pub open spec fn place<T>(s: Seq<T>, x: T, before: spec_fn(T, T) -> bool, i: int) -> int
    decreases i,
{
    if 0 < i <= s.len() && before(x, s[i - 1]) {
        place(s, x, before, i - 1)
    } else {
        i
    }
}

/// `s` with `x` put behind the last item that it does not go before.
pub open spec fn insert_by<T>(s: Seq<T>, x: T, before: spec_fn(T, T) -> bool) -> Seq<T> {
    s.insert(place(s, x, before, s.len() as int), x)
}

/// `s` in the order of `before`; items of which neither goes before the other stay as they were.
pub open spec fn sorted<T>(s: Seq<T>, before: spec_fn(T, T) -> bool) -> Seq<T>
    decreases s.len(),
{
    if s.len() == 0 {
        s
    } else {
        insert_by(sorted(s.drop_last(), before), s.last(), before)
    }
}

/// Whether `before` orders items as a key would: it never holds both ways, and an item that goes
/// before another goes before a third, or the third before the other.
pub open spec fn orders<T>(before: spec_fn(T, T) -> bool) -> bool {
    &&& forall|a: T, b: T| #[trigger] before(a, b) ==> !before(b, a)
    &&& forall|a: T, b: T, c: T| #[trigger]
        before(a, c) ==> #[trigger] before(a, b) || #[trigger] before(b, c)
}

/// Whether no item goes before an earlier one.
pub open spec fn in_order<T>(s: Seq<T>, before: spec_fn(T, T) -> bool) -> bool {
    forall|i: int, j: int| 0 <= i < j < s.len() ==> !before(#[trigger] s[j], #[trigger] s[i])
}

/// The place of an item lies behind those that it goes not before.
pub proof fn lemma_place<T>(s: Seq<T>, x: T, before: spec_fn(T, T) -> bool, i: int)
    requires
        0 <= i <= s.len(),
    ensures
        0 <= place(s, x, before, i) <= i,
        forall|j: int| place(s, x, before, i) <= j < i ==> before(x, #[trigger] s[j]),
        place(s, x, before, i) > 0 ==> !before(x, s[place(s, x, before, i) - 1]),
    decreases i,
{
    if 0 < i && before(x, s[i - 1]) {
        lemma_place(s, x, before, i - 1);
    }
}

/// Sorting keeps the number of items.
pub proof fn lemma_sorted_len<T>(s: Seq<T>, before: spec_fn(T, T) -> bool)
    ensures
        sorted(s, before).len() == s.len(),
    decreases s.len(),
{
    if s.len() > 0 {
        lemma_sorted_len(s.drop_last(), before);
        let t = sorted(s.drop_last(), before);
        lemma_place(t, s.last(), before, t.len() as int);
    }
}

/// What sorting gives is in order, and holds the same items as often.
pub proof fn law_sorted<T>(s: Seq<T>, before: spec_fn(T, T) -> bool)
    requires
        orders(before),
    ensures
        in_order(sorted(s, before), before),
        sorted(s, before).to_multiset() == s.to_multiset(),
    decreases s.len(),
{
    if s.len() > 0 {
        let t = sorted(s.drop_last(), before);
        let x = s.last();
        law_sorted(s.drop_last(), before);
        let k = place(t, x, before, t.len() as int);
        lemma_place(t, x, before, t.len() as int);
        let r = t.insert(k, x);
        assert forall|i: int, j: int| 0 <= i < j < r.len() implies !before(
            #[trigger] r[j],
            #[trigger] r[i],
        ) by {
            if i < k && j == k {
                if before(x, t[i]) {
                    if i < k - 1 {
                        assert(!before(t[k - 1], t[i]));
                        assert(before(x, t[i]) ==> before(x, t[k - 1]) || before(t[k - 1], t[i]));
                    }
                }
            } else if i == k && j > k {
                assert(before(x, t[j - 1]));
            } else if i < k && j < k {
                assert(!before(t[j], t[i]));
            } else if i < k && j > k {
                assert(!before(t[j - 1], t[i]));
            } else if i > k {
                assert(!before(t[j - 1], t[i - 1]));
            }
        }
        t.to_multiset_ensures();
        assert(s =~= s.drop_last().push(x));
        s.drop_last().to_multiset_ensures();
        vstd::seq_lib::to_multiset_insert(t, k, x);
    }
}

/// Sorting brings in no item that was not there.
pub proof fn lemma_sorted_members<T>(s: Seq<T>, before: spec_fn(T, T) -> bool)
    ensures
        forall|i: int|
            0 <= i < sorted(s, before).len() ==> s.contains(#[trigger] sorted(s, before)[i]),
    decreases s.len(),
{
    if s.len() > 0 {
        let t = sorted(s.drop_last(), before);
        let x = s.last();
        lemma_sorted_members(s.drop_last(), before);
        lemma_place(t, x, before, t.len() as int);
        let k = place(t, x, before, t.len() as int);
        let r = t.insert(k, x);
        assert forall|i: int| 0 <= i < r.len() implies s.contains(#[trigger] r[i]) by {
            if i == k {
                assert(s[s.len() - 1] == x);
            } else {
                let j = if i < k {
                    i
                } else {
                    i - 1
                };
                assert(r[i] == t[j]);
                assert(s.drop_last().contains(t[j]));
                let m = choose|m: int| 0 <= m < s.drop_last().len() && s.drop_last()[m] == t[j];
                assert(s[m] == t[j]);
            }
        }
    }
}

/// Whether text `a` goes before text `b`: at the first difference by the code of the character, or
/// where `a` ends first.
pub open spec fn text_before(a: Seq<char>, b: Seq<char>) -> bool
    decreases a.len(),
{
    if b.len() == 0 {
        false
    } else if a.len() == 0 {
        true
    } else if a[0] == b[0] {
        text_before(a.skip(1), b.skip(1))
    } else {
        a[0] < b[0]
    }
}

/// Tells whether text `a` goes before text `b`.
pub fn goes_before(a: &str, b: &str) -> (r: bool)
    ensures
        r == text_before(a@, b@),
{
    let x = chars_of(a);
    let y = chars_of(b);
    let mut i: usize = 0;
    assert(x@.skip(0) =~= x@ && y@.skip(0) =~= y@);
    while i < x.len() && i < y.len() && x[i] == y[i]
        invariant
            i <= x.len(),
            i <= y.len(),
            text_before(x@, y@) == text_before(x@.skip(i as int), y@.skip(i as int)),
        decreases x.len() - i,
    {
        proof {
            assert(x@.skip(i as int).skip(1) =~= x@.skip(i + 1));
            assert(y@.skip(i as int).skip(1) =~= y@.skip(i + 1));
        }
        i += 1;
    }
    if i == y.len() {
        false
    } else if i == x.len() {
        true
    } else {
        x[i] < y[i]
    }
}

/// The characters of each text in a list.
pub open spec fn char_rows(v: Seq<Vec<char>>) -> Seq<Seq<char>> {
    Seq::new(v.len(), |i: int| v[i]@)
}

/// Tells whether characters `a` go before characters `b`.
pub fn chars_before(a: &Vec<char>, b: &Vec<char>) -> (r: bool)
    ensures
        r == text_before(a@, b@),
{
    let mut i: usize = 0;
    assert(a@.skip(0) =~= a@ && b@.skip(0) =~= b@);
    while i < a.len() && i < b.len() && a[i] == b[i]
        invariant
            i <= a.len(),
            i <= b.len(),
            text_before(a@, b@) == text_before(a@.skip(i as int), b@.skip(i as int)),
        decreases a.len() - i,
    {
        proof {
            assert(a@.skip(i as int).skip(1) =~= a@.skip(i + 1));
            assert(b@.skip(i as int).skip(1) =~= b@.skip(i + 1));
        }
        i += 1;
    }
    if i == b.len() {
        false
    } else if i == a.len() {
        true
    } else {
        a[i] < b[i]
    }
}

/// The first `n` places.
pub open spec fn places(n: nat) -> Seq<int> {
    Seq::new(n, |i: int| i)
}

/// Places go by what stands at them, the greatest text first.
pub open spec fn greatest_first(keys: Seq<Seq<char>>) -> spec_fn(int, int) -> bool {
    |a: int, b: int| text_before(keys[b], keys[a])
}

/// A list of places.
pub open spec fn place_list(v: Seq<usize>) -> Seq<int> {
    Seq::new(v.len(), |i: int| v[i] as int)
}

/// The places of the keys, the greatest key first.
pub fn order_greatest_first(keys: &Vec<Vec<char>>) -> (r: Vec<usize>)
    ensures
        place_list(r@) == sorted(places(keys@.len()), greatest_first(char_rows(keys@))),
        r.len() == keys.len(),
        forall|i: int| 0 <= i < r.len() ==> #[trigger] r@[i] < keys.len(),
{
    let ghost rows = char_rows(keys@);
    let goes = |a: usize, b: usize| -> (c: bool)
        requires
            a < keys.len() && b < keys.len(),
        ensures
            c == text_before(keys@[b as int]@, keys@[a as int]@),
        { chars_before(&keys[b], &keys[a]) };
    order_places(keys.len(), goes, Ghost(greatest_first(rows)))
}

/// Places go by what stands at them, the least text first.
pub open spec fn least_first(keys: Seq<Seq<char>>) -> spec_fn(int, int) -> bool {
    |a: int, b: int| text_before(keys[a], keys[b])
}

/// The places of the keys, the least key first.
pub fn order_least_first(keys: &Vec<String>) -> (r: Vec<usize>)
    ensures
        place_list(r@) == sorted(places(keys@.len()), least_first(texts(keys@))),
        r.len() == keys.len(),
        forall|i: int| 0 <= i < r.len() ==> #[trigger] r@[i] < keys.len(),
{
    let ghost rows = texts(keys@);
    let goes = |a: usize, b: usize| -> (c: bool)
        requires
            a < keys.len() && b < keys.len(),
        ensures
            c == text_before(keys@[a as int]@, keys@[b as int]@),
        { goes_before(keys[a].as_str(), keys[b].as_str()) };
    order_places(keys.len(), goes, Ghost(least_first(rows)))
}

/// The first `n` places in the order that a comparison of them gives.
pub fn order_places<F: Fn(usize, usize) -> bool>(
    n: usize,
    goes: F,
    Ghost(before): Ghost<spec_fn(int, int) -> bool>,
) -> (r: Vec<usize>)
    requires
        forall|a: usize, b: usize| a < n && b < n ==> #[trigger] goes.requires((a, b)),
        forall|a: usize, b: usize, c: bool|
            a < n && b < n && #[trigger] goes.ensures((a, b), c) ==> c == before(
                a as int,
                b as int,
            ),
    ensures
        place_list(r@) == sorted(places(n as nat), before),
        r.len() == n,
        forall|i: int| 0 <= i < r.len() ==> #[trigger] r@[i] < n,
{
    let mut out: Vec<usize> = Vec::new();
    let mut i: usize = 0;
    assert(place_list(out@) =~= sorted(places(0), before));
    while i < n
        invariant
            i <= n,
            forall|a: usize, b: usize| a < n && b < n ==> #[trigger] goes.requires((a, b)),
            forall|a: usize, b: usize, c: bool|
                a < n && b < n && #[trigger] goes.ensures((a, b), c) ==> c == before(
                    a as int,
                    b as int,
                ),
            out.len() == i,
            forall|k: int| 0 <= k < out.len() ==> #[trigger] out@[k] < i,
            place_list(out@) == sorted(places(i as nat), before),
        decreases n - i,
    {
        let ghost list = place_list(out@);
        let mut k: usize = out.len();
        while k > 0 && goes(i, out[k - 1])
            invariant
                i < n,
                k <= out.len(),
                forall|a: usize, b: usize| a < n && b < n ==> #[trigger] goes.requires((a, b)),
                forall|a: usize, b: usize, c: bool|
                    a < n && b < n && #[trigger] goes.ensures((a, b), c) ==> c == before(
                        a as int,
                        b as int,
                    ),
                list == place_list(out@),
                forall|k: int| 0 <= k < out.len() ==> #[trigger] out@[k] < i,
                place(list, i as int, before, list.len() as int) == place(
                    list,
                    i as int,
                    before,
                    k as int,
                ),
            decreases k,
        {
            assert(list[k - 1] == out@[k - 1]);
            k -= 1;
        }
        proof {
            if k > 0 {
                assert(list[k - 1] == out@[k - 1]);
            }
            assert(places((i + 1) as nat).drop_last() =~= places(i as nat));
        }
        let ghost old_out = out@;
        out.insert(k, i);
        proof {
            assert(place_list(out@) =~= list.insert(k as int, i as int));
            assert forall|j: int| 0 <= j < out@.len() implies #[trigger] out@[j] < i + 1 by {
                if j < k {
                    assert(out@[j] == old_out[j]);
                } else if j > k {
                    assert(out@[j] == old_out[j - 1]);
                }
            }
        }
        i += 1;
    }
    out
}

/// What stands at each of the places.
pub open spec fn at_places<T>(items: Seq<T>, p: Seq<int>) -> Seq<T> {
    Seq::new(p.len(), |i: int| items[p[i]])
}

proof fn lemma_place_by_index<T>(
    items: Seq<T>,
    p: Seq<int>,
    x: int,
    by_index: spec_fn(int, int) -> bool,
    before: spec_fn(T, T) -> bool,
    i: int,
)
    requires
        0 <= i <= p.len(),
        0 <= x < items.len(),
        forall|k: int| 0 <= k < p.len() ==> 0 <= #[trigger] p[k] < items.len(),
        forall|a: int, b: int|
            0 <= a < items.len() && 0 <= b < items.len() ==> #[trigger] by_index(a, b) == before(
                items[a],
                items[b],
            ),
    ensures
        place(p, x, by_index, i) == place(at_places(items, p), items[x], before, i),
    decreases i,
{
    if i > 0 {
        assert(by_index(x, p[i - 1]) == before(items[x], items[p[i - 1]]));
        lemma_place_by_index(items, p, x, by_index, before, i - 1);
    }
}

/// Sorting items and sorting their places come to the same.
pub proof fn lemma_sorted_by_index<T>(
    items: Seq<T>,
    n: nat,
    by_index: spec_fn(int, int) -> bool,
    before: spec_fn(T, T) -> bool,
)
    requires
        n <= items.len(),
        forall|a: int, b: int|
            0 <= a < items.len() && 0 <= b < items.len() ==> #[trigger] by_index(a, b) == before(
                items[a],
                items[b],
            ),
    ensures
        sorted(places(n), by_index).len() == n,
        forall|k: int|
            0 <= k < n ==> 0 <= #[trigger] sorted(places(n), by_index)[k] < n,
        sorted(items.take(n as int), before) == at_places(items, sorted(places(n), by_index)),
    decreases n,
{
    if n == 0 {
        assert(sorted(items.take(0), before) =~= at_places(items, sorted(places(0), by_index)));
    } else {
        let m = (n - 1) as nat;
        lemma_sorted_by_index(items, m, by_index, before);
        let p = sorted(places(m), by_index);
        let s = sorted(items.take(m as int), before);
        assert(places(n).drop_last() =~= places(m));
        assert(items.take(n as int).drop_last() =~= items.take(m as int));
        lemma_place_by_index(items, p, m as int, by_index, before, p.len() as int);
        let k = place(p, m as int, by_index, p.len() as int);
        lemma_place(p, m as int, by_index, p.len() as int);
        let q = p.insert(k, m as int);
        assert(sorted(places(n), by_index) == q);
        assert forall|j: int| 0 <= j < n implies 0 <= #[trigger] q[j] < n by {
            if j < k {
                assert(q[j] == p[j]);
            } else if j > k {
                assert(q[j] == p[j - 1]);
            }
        }
        assert(s.insert(k, items[m as int]) =~= at_places(items, q));
    }
}

/// Texts are ordered as a key orders them: never both ways, and with no text out of place.
pub proof fn lemma_text_before(a: Seq<char>, b: Seq<char>, c: Seq<char>)
    ensures
        text_before(a, b) ==> !text_before(b, a),
        text_before(a, c) ==> text_before(a, b) || text_before(b, c),
    decreases a.len(),
{
    if a.len() > 0 && b.len() > 0 && c.len() > 0 {
        lemma_text_before(a.skip(1), b.skip(1), c.skip(1));
    } else if a.len() > 0 && b.len() > 0 {
        lemma_text_before(a.skip(1), b.skip(1), c);
    }
}

/// Texts in rising order.
pub open spec fn rising_texts() -> spec_fn(Seq<char>, Seq<char>) -> bool {
    |a: Seq<char>, b: Seq<char>| text_before(a, b)
}

/// The texts in rising order.
pub fn sort_texts(v: &Vec<String>) -> (r: Vec<String>)
    ensures
        texts(r@) == sorted(texts(v@), rising_texts()),
{
    let ghost all = texts(v@);
    let mut out: Vec<String> = Vec::new();
    let mut keys: Vec<Vec<char>> = Vec::new();
    let mut i: usize = 0;
    assert(texts(out@) =~= sorted(all.take(0), rising_texts()));
    while i < v.len()
        invariant
            i <= v.len(),
            all == texts(v@),
            keys.len() == out.len(),
            char_rows(keys@) == texts(out@),
            texts(out@) == sorted(all.take(i as int), rising_texts()),
        decreases v.len() - i,
    {
        let key = chars_of(v[i].as_str());
        let ghost list = texts(out@);
        let mut k: usize = out.len();
        while k > 0 && chars_before(&key, &keys[k - 1])
            invariant
                k <= out.len(),
                keys.len() == out.len(),
                list == texts(out@),
                char_rows(keys@) == list,
                place(list, key@, rising_texts(), list.len() as int) == place(
                    list,
                    key@,
                    rising_texts(),
                    k as int,
                ),
            decreases k,
        {
            assert(char_rows(keys@)[k - 1] == keys@[k - 1]@);
            k -= 1;
        }
        proof {
            if k > 0 {
                assert(char_rows(keys@)[k - 1] == keys@[k - 1]@);
            }
            assert(all.take(i + 1).drop_last() =~= all.take(i as int));
            assert(all.take(i + 1).last() == all[i as int]);
        }
        let ghost word = key@;
        keys.insert(k, key);
        out.insert(k, v[i].clone());
        proof {
            assert(texts(out@) =~= list.insert(k as int, word));
            assert(char_rows(keys@) =~= list.insert(k as int, word));
        }
        i += 1;
    }
    assert(all.take(all.len() as int) =~= all);
    out
}

/// Rising order is one that a key gives.
pub proof fn lemma_rising_orders()
    ensures
        orders(rising_texts()),
{
    let before = rising_texts();
    assert forall|a: Seq<char>, b: Seq<char>| #[trigger] before(a, b) implies !before(b, a) by {
        lemma_text_before(a, b, b);
    }
    assert forall|a: Seq<char>, b: Seq<char>, c: Seq<char>| #[trigger]
        before(a, c) implies #[trigger] before(a, b) || #[trigger] before(b, c) by {
        lemma_text_before(a, b, c);
    }
}

/// Sorted texts are in rising order.
pub proof fn law_texts_sorted(v: Seq<Seq<char>>)
    ensures
        in_order(sorted(v, rising_texts()), rising_texts()),
        sorted(v, rising_texts()).to_multiset() == v.to_multiset(),
{
    lemma_rising_orders();
    law_sorted(v, rising_texts());
}

/// The text by which paths are ordered part by part: a slash goes before every other character.
pub open spec fn path_key(path: Seq<char>) -> Seq<char> {
    path.map_values(
        |c: char|
            if c == '/' {
                '\0'
            } else {
                c
            },
    )
}

/// Paths in rising order, part by part.
pub open spec fn rising_paths() -> spec_fn(Seq<char>, Seq<char>) -> bool {
    |a: Seq<char>, b: Seq<char>| text_before(path_key(a), path_key(b))
}

fn key_of_path(path: &str) -> (r: String)
    ensures
        r@ == path_key(path@),
{
    let a = chars_of(path);
    let mut out: Vec<char> = Vec::new();
    let mut i: usize = 0;
    while i < a.len()
        invariant
            i <= a.len(),
            a@ == path@,
            out.len() == i,
            forall|k: int|
                0 <= k < i ==> #[trigger] out@[k] == if path@[k] == '/' {
                    '\0'
                } else {
                    path@[k]
                },
        decreases a.len() - i,
    {
        out.push(
            if a[i] == '/' {
                '\0'
            } else {
                a[i]
            },
        );
        i += 1;
    }
    assert(out@ =~= path_key(path@));
    string_of(&out)
}

/// The paths in rising order, part by part.
pub fn sort_paths(v: &Vec<String>) -> (r: Vec<String>)
    ensures
        texts(r@) == sorted(texts(v@), rising_paths()),
{
    let ghost all = texts(v@);
    let mut keys: Vec<String> = Vec::new();
    let mut i: usize = 0;
    while i < v.len()
        invariant
            i <= v.len(),
            all == texts(v@),
            keys.len() == i,
            forall|k: int| 0 <= k < i ==> #[trigger] keys@[k]@ == path_key(all[k]),
        decreases v.len() - i,
    {
        keys.push(key_of_path(v[i].as_str()));
        i += 1;
    }
    let p = order_least_first(&keys);
    proof {
        let by_index = least_first(texts(keys@));
        let before = rising_paths();
        assert forall|a: int, b: int| 0 <= a < all.len() && 0 <= b < all.len() implies #[trigger]
            by_index(a, b) == before(all[a], all[b]) by {
            assert(texts(keys@)[a] == keys@[a]@ && texts(keys@)[b] == keys@[b]@);
        }
        lemma_sorted_by_index(all, all.len(), by_index, before);
        assert(all.take(all.len() as int) =~= all);
    }
    let mut out: Vec<String> = Vec::new();
    let mut j: usize = 0;
    while j < p.len()
        invariant
            j <= p.len(),
            all == texts(v@),
            out.len() == j,
            forall|k: int| 0 <= k < p.len() ==> #[trigger] p@[k] < v.len(),
            forall|k: int| 0 <= k < j ==> #[trigger] out@[k]@ == all[p@[k] as int],
        decreases p.len() - j,
    {
        out.push(v[p[j]].clone());
        j += 1;
    }
    assert(texts(out@) =~= at_places(all, place_list(p@)));
    out
}

/// Sorted paths are in rising order, and are the paths that were there.
pub proof fn law_paths_sorted(v: Seq<Seq<char>>)
    ensures
        in_order(sorted(v, rising_paths()), rising_paths()),
        sorted(v, rising_paths()).to_multiset() == v.to_multiset(),
{
    let before = rising_paths();
    assert forall|a: Seq<char>, b: Seq<char>| #[trigger] before(a, b) implies !before(b, a) by {
        lemma_text_before(path_key(a), path_key(b), path_key(b));
    }
    assert forall|a: Seq<char>, b: Seq<char>, c: Seq<char>| #[trigger]
        before(a, c) implies #[trigger] before(a, b) || #[trigger] before(b, c) by {
        lemma_text_before(path_key(a), path_key(b), path_key(c));
    }
    law_sorted(v, before);
}

} // verus!
