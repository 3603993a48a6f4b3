//! What the pieces of a text are: its words, its lines, its numbers, and what stands on the sides of a
//! sign.
use vstd::prelude::*;
use vstd::string::*;

use crate::text::{
    after_last, decimal, digit_for, find_from, is_digit, is_space, lemma_decimal_value, lines,
    matches_at, parse_signed, parse_unsigned, replace, replace_from, segment_start, signed_decimal,
    space_end, split, split_once, stop_from, strip_end, until, without, without_return, word_end,
    words, words_from,
};
use crate::text_laws::{law_split_joins, lemma_find_moves, lemma_found, lemma_not_found};

verus! {

// ---------------------------------------------------------------------------------------------
// Words
// ---------------------------------------------------------------------------------------------
proof fn lemma_space_end_moves(p: Seq<char>, s: Seq<char>, i: int)
    requires
        0 <= i <= s.len(),
    ensures
        space_end(p + s, p.len() + i) == p.len() + space_end(s, i),
        i <= space_end(s, i) <= s.len(),
    decreases s.len() - i,
{
    if i < s.len() {
        assert((p + s)[p.len() + i] == s[i]);
        if is_space(s[i]) {
            lemma_space_end_moves(p, s, i + 1);
        }
    }
}

proof fn lemma_word_end_moves(p: Seq<char>, s: Seq<char>, i: int)
    requires
        0 <= i <= s.len(),
    ensures
        word_end(p + s, p.len() + i) == p.len() + word_end(s, i),
        i <= word_end(s, i) <= s.len(),
    decreases s.len() - i,
{
    if i < s.len() {
        assert((p + s)[p.len() + i] == s[i]);
        if !is_space(s[i]) {
            lemma_word_end_moves(p, s, i + 1);
        }
    }
}

proof fn lemma_words_move(p: Seq<char>, s: Seq<char>, i: int)
    requires
        0 <= i <= s.len(),
    ensures
        words_from(p + s, p.len() + i) == words_from(s, i),
    decreases s.len() - i,
{
    let a = space_end(s, i);
    lemma_space_end_moves(p, s, i);
    let e = word_end(s, a);
    lemma_word_end_moves(p, s, a);
    if a < s.len() && a < e {
        assert((p + s).subrange(p.len() + a, p.len() + e) =~= s.subrange(a, e));
        lemma_words_move(p, s, e);
    }
}

proof fn lemma_words_skip_space(s: Seq<char>, i: int)
    requires
        0 <= i < s.len(),
        is_space(s[i]),
    ensures
        words_from(s, i) == words_from(s, i + 1),
{
    let none = Seq::<char>::empty();
    lemma_space_end_moves(none, s, i + 1);
    assert(space_end(s, i) == space_end(s, i + 1));
}

proof fn lemma_word_over(s: Seq<char>, i: int, j: int)
    requires
        0 <= i <= j <= s.len(),
        forall|k: int| i <= k < j ==> !is_space(#[trigger] s[k]),
        j < s.len() ==> is_space(s[j]),
    ensures
        word_end(s, i) == j,
    decreases j - i,
{
    if i < j {
        assert(!is_space(s[i]));
        lemma_word_over(s, i + 1, j);
    }
}

/// The words of a text are all its stretches without white space, in their order: of a word, white
/// space and a rest they are the word and those of the rest.
pub proof fn law_every_word_is_found(w: Seq<char>, blank: char, rest: Seq<char>)
    requires
        w.len() > 0,
        forall|k: int| 0 <= k < w.len() ==> !is_space(#[trigger] w[k]),
        is_space(blank),
    ensures
        words(w) == seq![w],
        words(w + seq![blank] + rest) == seq![w] + words(rest),
        words(seq![blank] + rest) == words(rest),
        words(Seq::empty()).len() == 0,
{
    let n = w.len() as int;
    assert(!is_space(w[0]));
    lemma_word_over(w, 0, n);
    assert(w.subrange(0, n) =~= w);
    assert(words_from(w, n) =~= Seq::empty());
    assert(seq![w] + Seq::<Seq<char>>::empty() =~= seq![w]);
    let s = w + seq![blank] + rest;
    assert forall|k: int| 0 <= k < n implies !is_space(#[trigger] s[k]) by {
        assert(s[k] == w[k]);
    }
    assert(s[n] == blank);
    lemma_word_over(s, 0, n);
    assert(!is_space(s[0]));
    assert(s.subrange(0, n) =~= w);
    lemma_words_skip_space(s, n);
    assert(s =~= (w + seq![blank]) + rest);
    lemma_words_move(w + seq![blank], rest, 0);
    let t = seq![blank] + rest;
    assert(t[0] == blank);
    lemma_words_skip_space(t, 0);
    lemma_words_move(seq![blank], rest, 0);
}

// ---------------------------------------------------------------------------------------------
// Lines
// ---------------------------------------------------------------------------------------------
/// The lines of a text are what stands between its line feeds, in their order; a carriage return before
/// a line feed goes with it, and behind the last line feed there is a line only where something stands.
pub proof fn law_every_line_is_found(line: Seq<char>, rest: Seq<char>)
    requires
        forall|k: int| 0 <= k < line.len() ==> #[trigger] line[k] != '\n',
    ensures
        lines(line + seq!['\n'] + rest) == seq![without_return(line)] + lines(rest),
        line.len() > 0 ==> lines(line) == seq![line],
        lines(Seq::empty()).len() == 0,
        line.len() > 0 && line.last() == '\r' ==> without_return(line) == line.drop_last(),
        line.len() == 0 || line.last() != '\r' ==> without_return(line) == line,
{
    reveal_strlit("\n");
    assert("\n"@ =~= seq!['\n']);
    let feed = seq!['\n'];
    lemma_no_feed(line);
    assert(split(line, feed) == seq![line]);
    law_split_joins(line, '\n', rest);
    let pieces = split(line + feed + rest, feed);
    let tail = split(rest, feed);
    assert(pieces =~= seq![line] + tail);
    lemma_split_filled(rest, feed, 0);
    assert(pieces.last() == tail.last());
    let n = (tail.len() - 1) as nat;
    let full = Seq::new((n + 1) as nat, |i: int| without_return(pieces[i]));
    let short = Seq::new(n, |i: int| without_return(tail[i]));
    assert(full =~= seq![without_return(line)] + short) by {
        assert forall|i: int| 0 <= i < full.len() implies full[i] == (seq![without_return(line)]
            + short)[i] by {
            if i > 0 {
                assert(pieces[i] == tail[i - 1]);
            }
        }
    }
    if tail.last().len() > 0 {
        assert(full.push(pieces.last()) =~= seq![without_return(line)] + short.push(tail.last()));
    }
    assert(lines(line + feed + rest) =~= seq![without_return(line)] + lines(rest));
    if line.len() > 0 {
        assert(lines(line) =~= seq![line]);
    }
    let none = Seq::<char>::empty();
    lemma_no_feed(none);
    assert(lines(none) =~= Seq::empty());
    if line.len() > 0 && line.last() == '\r' {
        assert(without_return(line) =~= line.drop_last());
    }
}

proof fn lemma_no_feed(line: Seq<char>)
    requires
        forall|k: int| 0 <= k < line.len() ==> #[trigger] line[k] != '\n',
    ensures
        split(line, seq!['\n']) == seq![line],
{
    let feed = seq!['\n'];
    assert forall|j: int| 0 <= j implies !#[trigger] matches_at(line, feed, j) by {
        if matches_at(line, feed, j) {
            assert(line.subrange(j, j + 1)[0] == feed[0]);
            assert(line[j] != '\n');
        }
    }
    crate::text_laws::lemma_split_whole(line, feed);
}

proof fn lemma_split_filled(s: Seq<char>, pat: Seq<char>, i: int)
    ensures
        crate::text::split_from(s, pat, i).len() > 0,
{
}

// ---------------------------------------------------------------------------------------------
// Numbers
// ---------------------------------------------------------------------------------------------
/// A number is read back as it is written.
pub proof fn law_number_round_trip(n: int, min: int, max: int)
    requires
        min <= n <= max,
    ensures
        parse_signed(signed_decimal(n), min, max) == Some(n),
        0 <= n ==> parse_unsigned(decimal(n as nat), max) == Some(n),
{
    let m: nat = if n < 0 {
        (-n) as nat
    } else {
        n as nat
    };
    lemma_decimal_value(m);
    lemma_first_digit(m);
    let d = decimal(m);
    if n < 0 {
        let s = seq!['-'] + d;
        assert(s.skip(1) =~= d);
        assert(s[0] == '-');
    }
}

proof fn lemma_first_digit(n: nat)
    ensures
        decimal(n).len() > 0,
        is_digit(decimal(n)[0]),
    decreases n,
{
    if n >= 10 {
        lemma_first_digit(n / 10);
    } else {
        assert(is_digit(digit_for(n as int)));
    }
}

// ---------------------------------------------------------------------------------------------
// Sides
// ---------------------------------------------------------------------------------------------
/// A text is cut at the first place of a pattern into what stands before and behind it.
pub proof fn law_sides_of_the_first_place(a: Seq<char>, pat: Seq<char>, b: Seq<char>)
    requires
        forall|j: int| 0 <= j < a.len() ==> !#[trigger] matches_at(a + pat + b, pat, j),
    ensures
        split_once(a + pat + b, pat) == Some((a, b)),
{
    let s = a + pat + b;
    let n = a.len() as int;
    assert(s.subrange(n, n + pat.len()) =~= pat);
    lemma_found(s, pat, 0, n);
    assert(s.take(n) =~= a);
    assert(s.skip(n + pat.len()) =~= b);
}

/// Every place of a pattern is replaced, from the front on, and nothing else is changed.
pub proof fn law_every_place_is_replaced(
    a: Seq<char>,
    pat: Seq<char>,
    b: Seq<char>,
    with: Seq<char>,
)
    requires
        pat.len() > 0,
        forall|j: int| 0 <= j < a.len() ==> !#[trigger] matches_at(a + pat + b, pat, j),
    ensures
        replace(a + pat + b, pat, with) == a + with + replace(b, pat, with),
{
    let s = a + pat + b;
    let n = a.len() as int;
    assert(s.subrange(n, n + pat.len()) =~= pat);
    lemma_found(s, pat, 0, n);
    assert(s.subrange(0, n) =~= a);
    let p = a + pat;
    assert(s =~= p + b);
    lemma_replace_moves(p, b, pat, with, 0);
}

/// A text in which a pattern does not stand stays as it is.
pub proof fn law_nothing_else_is_replaced(s: Seq<char>, pat: Seq<char>, with: Seq<char>)
    requires
        forall|j: int| 0 <= j ==> !#[trigger] matches_at(s, pat, j),
    ensures
        replace(s, pat, with) == s,
{
    lemma_not_found(s, pat, 0);
    assert(s.skip(0) =~= s);
}

proof fn lemma_replace_moves(
    p: Seq<char>,
    s: Seq<char>,
    pat: Seq<char>,
    with: Seq<char>,
    i: int,
)
    requires
        0 <= i <= s.len(),
    ensures
        replace_from(p + s, pat, with, p.len() + i) == replace_from(s, pat, with, i),
    decreases s.len() - i,
{
    lemma_find_moves(p, s, pat, i);
    assert((p + s).skip(p.len() + i) =~= s.skip(i));
    if let Some(k) = find_from(s, pat, i) {
        if pat.len() > 0 && i <= k && k + pat.len() <= s.len() {
            assert((p + s).subrange(p.len() + i, p.len() + k) =~= s.subrange(i, k));
            lemma_replace_moves(p, s, pat, with, k + pat.len());
        }
    }
}

/// What stands behind the last place of a sign goes on to the end, and what stands before the first of
/// some signs starts at the beginning.
pub proof fn law_behind_the_last_and_before_the_first(a: Seq<char>, c: char, b: Seq<char>)
    ensures
        !b.contains(c) ==> after_last(a + seq![c] + b, c) == b,
        !b.contains(c) ==> after_last(b, c) == b,
        !a.contains(c) ==> until(a + seq![c] + b, seq![c]) == a,
        !a.contains(c) ==> until(a, seq![c]) == a,
{
    let s = a + seq![c] + b;
    let n = a.len() as int;
    if !b.contains(c) {
        assert(s[n] == c);
        assert forall|k: int| n + 1 <= k < s.len() implies #[trigger] s[k] != c by {
            assert(s[k] == b[k - n - 1]);
        }
        lemma_segment(s, c, s.len() as int, n + 1);
        assert(s.skip(n + 1) =~= b);
        assert forall|k: int| 0 <= k < b.len() implies #[trigger] b[k] != c by {}
        lemma_segment(b, c, b.len() as int, 0);
        assert(b.skip(0) =~= b);
    }
    if !a.contains(c) {
        let stops = seq![c];
        assert(stops[0] == c);
        assert forall|k: int| 0 <= k < n implies !stops.contains(#[trigger] s[k]) by {
            assert(s[k] == a[k]);
        }
        assert(s[n] == c);
        lemma_stop(s, stops, 0, n);
        assert(s.take(n) =~= a);
        assert forall|k: int| 0 <= k < n implies !stops.contains(#[trigger] a[k]) by {}
        lemma_stop(a, stops, 0, n);
        assert(a.take(n) =~= a);
    }
}

proof fn lemma_segment(s: Seq<char>, c: char, i: int, k: int)
    requires
        0 <= k <= i <= s.len(),
        forall|j: int| k <= j < i ==> #[trigger] s[j] != c,
        k > 0 ==> s[k - 1] == c,
    ensures
        segment_start(s, c, i) == k,
    decreases i - k,
{
    if k < i {
        assert(s[i - 1] != c);
        lemma_segment(s, c, i - 1, k);
    }
}

proof fn lemma_stop(s: Seq<char>, stops: Seq<char>, i: int, k: int)
    requires
        0 <= i <= k <= s.len(),
        forall|j: int| i <= j < k ==> !stops.contains(#[trigger] s[j]),
        k < s.len() ==> stops.contains(s[k]),
    ensures
        stop_from(s, stops, i) == k,
    decreases k - i,
{
    if i < k {
        assert(!stops.contains(s[i]));
        lemma_stop(s, stops, i + 1, k);
    }
}

/// Just the characters that are not wanted go from a text.
pub proof fn law_just_the_unwanted_goes(s: Seq<char>, bad: Seq<char>)
    ensures
        without(s, bad) == s.filter(|c: char| !bad.contains(c)),
    decreases s.len(),
{
    reveal(Seq::filter);
    if s.len() > 0 {
        law_just_the_unwanted_goes(s.drop_last(), bad);
    }
}

/// Each place of an ending at the end of a text goes, and a text that does not end so stays.
pub proof fn law_endings_go(s: Seq<char>, pat: Seq<char>)
    requires
        pat.len() > 0,
    ensures
        strip_end(s + pat, pat) == strip_end(s, pat),
        !crate::text::ends_with(s, pat) ==> strip_end(s, pat) == s,
{
    let all = s + pat;
    assert(all.subrange(all.len() - pat.len(), all.len() as int) =~= pat);
    assert(all.take(all.len() - pat.len()) =~= s);
}

} // verus!
