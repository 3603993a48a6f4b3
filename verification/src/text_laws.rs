//! How splitting, joining and searching texts go together.
use vstd::prelude::*;

use crate::text::{
    find_from, is_space, join, lemma_find_from, matches_at, space_end, space_start, split,
    split_from, trim,
};

verus! {

/// A match with none before it is the one that is found.
pub proof fn lemma_found(s: Seq<char>, pat: Seq<char>, start: int, k: int)
    requires
        0 <= start <= k,
        matches_at(s, pat, k),
        forall|j: int| start <= j < k ==> !#[trigger] matches_at(s, pat, j),
    ensures
        find_from(s, pat, start) == Some(k),
{
    lemma_find_from(s, pat, start);
    if let Some(f) = find_from(s, pat, start) {
        if f < k {
            assert(!matches_at(s, pat, f));
        } else if k < f {
            assert(!matches_at(s, pat, k));
        }
    } else {
        assert(!matches_at(s, pat, k));
    }
}

/// Where there is no match, none is found.
pub proof fn lemma_not_found(s: Seq<char>, pat: Seq<char>, start: int)
    requires
        0 <= start,
        forall|j: int| start <= j ==> !#[trigger] matches_at(s, pat, j),
    ensures
        find_from(s, pat, start) is None,
{
    lemma_find_from(s, pat, start);
}

/// A text in front moves the matches by its length.
pub proof fn lemma_match_moves(p: Seq<char>, s: Seq<char>, pat: Seq<char>, i: int)
    requires
        0 <= i,
    ensures
        matches_at(p + s, pat, p.len() + i) == matches_at(s, pat, i),
{
    if i + pat.len() <= s.len() {
        assert((p + s).subrange(p.len() + i, p.len() + i + pat.len()) =~= s.subrange(
            i,
            i + pat.len(),
        ));
    }
}

/// A text in front moves what is found by its length.
pub proof fn lemma_find_moves(p: Seq<char>, s: Seq<char>, pat: Seq<char>, i: int)
    requires
        0 <= i,
    ensures
        find_from(p + s, pat, p.len() + i) == (match find_from(s, pat, i) {
            Some(k) => Some(p.len() + k),
            None => None,
        }),
{
    lemma_find_from(s, pat, i);
    match find_from(s, pat, i) {
        Some(k) => {
            lemma_match_moves(p, s, pat, k);
            assert forall|j: int| p.len() + i <= j < p.len() + k implies !#[trigger] matches_at(
                p + s,
                pat,
                j,
            ) by {
                lemma_match_moves(p, s, pat, j - p.len());
                assert(!matches_at(s, pat, j - p.len()));
            }
            lemma_found(p + s, pat, p.len() + i, p.len() + k);
        },
        None => {
            assert forall|j: int| p.len() + i <= j implies !#[trigger] matches_at(p + s, pat, j) by {
                lemma_match_moves(p, s, pat, j - p.len());
                assert(!matches_at(s, pat, j - p.len()));
            }
            lemma_not_found(p + s, pat, p.len() + i);
        },
    }
}

/// A text in front does not change the pieces behind it.
pub proof fn lemma_split_moves(p: Seq<char>, s: Seq<char>, pat: Seq<char>, i: int)
    requires
        0 <= i <= s.len(),
    ensures
        split_from(p + s, pat, p.len() + i) == split_from(s, pat, i),
    decreases s.len() - i,
{
    lemma_find_moves(p, s, pat, i);
    assert((p + s).skip(p.len() + i) =~= s.skip(i));
    if let Some(k) = find_from(s, pat, i) {
        if pat.len() > 0 && i <= k && k + pat.len() <= s.len() {
            assert((p + s).subrange(p.len() + i, p.len() + k) =~= s.subrange(i, k));
            lemma_split_moves(p, s, pat, k + pat.len());
        }
    }
}

/// Where a text has no match before the one that ends it, it is the first piece.
pub proof fn lemma_split_first(a: Seq<char>, pat: Seq<char>, b: Seq<char>)
    requires
        pat.len() > 0,
        forall|j: int| 0 <= j < a.len() ==> !#[trigger] matches_at(a + pat + b, pat, j),
    ensures
        split(a + pat + b, pat) == seq![a] + split(b, pat),
{
    let s = a + pat + b;
    assert(s.subrange(a.len() as int, a.len() as int + pat.len()) =~= pat);
    lemma_found(s, pat, 0, a.len() as int);
    assert(s.subrange(0, a.len() as int) =~= a);
    lemma_split_moves(a + pat, b, pat, 0);
}

/// A text without a match is its only piece.
pub proof fn lemma_split_whole(s: Seq<char>, pat: Seq<char>)
    requires
        forall|j: int| 0 <= j ==> !#[trigger] matches_at(s, pat, j),
    ensures
        split(s, pat) == seq![s],
{
    lemma_not_found(s, pat, 0);
    assert(s.skip(0) =~= s);
}

proof fn lemma_split_at_sign(a: Seq<char>, c: char, b: Seq<char>, start: int)
    requires
        0 <= start <= a.len(),
    ensures
        split_from(a + seq![c] + b, seq![c], start) == split_from(a, seq![c], start) + split(
            b,
            seq![c],
        ),
    decreases a.len() - start,
{
    let pat = seq![c];
    let s = a + pat + b;
    lemma_find_from(a, pat, start);
    match find_from(a, pat, start) {
        Some(k) => {
            assert(s.subrange(k, k + 1) =~= a.subrange(k, k + 1));
            assert forall|j: int| start <= j < k implies !#[trigger] matches_at(s, pat, j) by {
                assert(s.subrange(j, j + 1) =~= a.subrange(j, j + 1));
                assert(!matches_at(a, pat, j));
            }
            lemma_found(s, pat, start, k);
            lemma_split_at_sign(a, c, b, k + 1);
            assert(s.subrange(start, k) =~= a.subrange(start, k));
            assert((seq![a.subrange(start, k)] + split_from(a, pat, k + 1)) + split(b, pat)
                =~= seq![a.subrange(start, k)] + (split_from(a, pat, k + 1) + split(b, pat)));
        },
        None => {
            let n = a.len() as int;
            assert(s.subrange(n, n + 1) =~= pat);
            assert forall|j: int| start <= j < n implies !#[trigger] matches_at(s, pat, j) by {
                assert(s.subrange(j, j + 1) =~= a.subrange(j, j + 1));
                assert(!matches_at(a, pat, j));
            }
            lemma_found(s, pat, start, n);
            assert(s.subrange(start, n) =~= a.skip(start));
            lemma_split_moves(a + pat, b, pat, 0);
        },
    }
}

/// The pieces of two texts with a sign between them are those of the one and then those of the other.
pub proof fn law_split_joins(a: Seq<char>, c: char, b: Seq<char>)
    ensures
        split(a + seq![c] + b, seq![c]) == split(a, seq![c]) + split(b, seq![c]),
{
    lemma_split_at_sign(a, c, b, 0);
}

/// Texts that are joined begin with the first.
pub proof fn lemma_join_first(parts: Seq<Seq<char>>, sep: Seq<char>)
    requires
        parts.len() >= 2,
    ensures
        join(parts, sep) == parts[0] + sep + join(parts.skip(1), sep),
    decreases parts.len(),
{
    let rest = parts.skip(1);
    if parts.len() == 2 {
        assert(parts.drop_last().len() == 1);
        assert(join(parts.drop_last(), sep) == parts[0]);
        assert(join(rest, sep) == rest[0]);
    } else {
        let shorter = parts.drop_last();
        lemma_join_first(shorter, sep);
        assert(shorter.skip(1) =~= rest.drop_last());
        assert(rest.last() == parts.last());
        assert(parts[0] + sep + join(rest.drop_last(), sep) + sep + parts.last() =~= parts[0] + sep
            + (join(rest.drop_last(), sep) + sep + rest.last()));
    }
}

/// A text that neither begins nor ends with white space is its own trimmed text.
pub proof fn lemma_trim_same(s: Seq<char>)
    requires
        s.len() > 0 ==> !is_space(s[0]) && !is_space(s.last()),
    ensures
        trim(s) == s,
{
    if s.len() > 0 {
        assert(space_end(s, 0) == 0);
        assert(space_start(s, 0, s.len() as int) == s.len());
    }
    assert(s.subrange(0, s.len() as int) =~= s);
}

proof fn lemma_space_end_over(w: Seq<char>, s: Seq<char>, i: int)
    requires
        0 <= i <= w.len(),
        forall|j: int| 0 <= j < w.len() ==> is_space(#[trigger] w[j]),
        s.len() > 0 && !is_space(s[0]),
    ensures
        space_end(w + s, i) == w.len(),
    decreases w.len() - i,
{
    if i < w.len() {
        assert((w + s)[i] == w[i]);
        lemma_space_end_over(w, s, i + 1);
    } else {
        assert((w + s)[i] == s[0]);
    }
}

proof fn lemma_space_start_over(s: Seq<char>, w: Seq<char>, lo: int, i: int)
    requires
        0 <= lo < s.len() <= i <= s.len() + w.len(),
        forall|j: int| 0 <= j < w.len() ==> is_space(#[trigger] w[j]),
        !is_space(s.last()),
    ensures
        space_start(s + w, lo, i) == s.len(),
    decreases i,
{
    if i > s.len() {
        assert((s + w)[i - 1] == w[i - 1 - s.len()]);
        lemma_space_start_over(s, w, lo, i - 1);
    } else {
        assert((s + w)[i - 1] == s.last());
    }
}

/// White space around a text without white space at its ends is what trimming takes away.
pub proof fn law_trim_takes_surrounding_space(w: Seq<char>, s: Seq<char>, v: Seq<char>)
    requires
        s.len() > 0 && !is_space(s[0]) && !is_space(s.last()),
        forall|j: int| 0 <= j < w.len() ==> is_space(#[trigger] w[j]),
        forall|j: int| 0 <= j < v.len() ==> is_space(#[trigger] v[j]),
    ensures
        trim(w + s + v) == s,
{
    let all = w + s + v;
    assert(all =~= w + (s + v));
    lemma_space_end_over(w, s + v, 0);
    assert((w + s).last() == s.last());
    lemma_space_start_over(w + s, v, w.len() as int, all.len() as int);
    assert(all.subrange(w.len() as int, (w + s).len() as int) =~= s);
}

} // verus!
