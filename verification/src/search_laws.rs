//! What a search asks for: every word of what a user typed, and a snippet that shows where it stands.
use vstd::prelude::*;
use vstd::string::*;

use crate::note_laws::law_snippet_shows_the_match;
use crate::note_service::{note_snippet, plain_text};
use crate::search_service::{all_words, any_word, beginnings, knowledge_query, quoted_beginnings};
use crate::text::{
    byte_len, contains, find_from, is_space, lemma_find_from, lowercase_of, matches_at, strip_both, words,
};
use crate::text_laws::lemma_join_first;
use crate::word_laws::law_every_word_is_found;

verus! {

/// Each word is asked for as the beginning of a word, and any of them is enough: of a word and a rest,
/// it is the word or what is asked for the rest.
pub proof fn law_any_word_is_enough(w: Seq<char>, blank: char, rest: Seq<char>)
    requires
        w.len() > 0,
        forall|k: int| 0 <= k < w.len() ==> !is_space(#[trigger] w[k]),
        is_space(blank),
    ensures
        any_word(w) == w + "*"@,
        words(rest).len() > 0 ==> any_word(w + seq![blank] + rest) == w + "*"@ + " OR "@
            + any_word(rest),
        words(rest).len() == 0 ==> any_word(w + seq![blank] + rest) == w + "*"@,
{
    law_every_word_is_found(w, blank, rest);
    assert(beginnings(seq![w]) =~= seq![w + "*"@]);
    let all = beginnings(seq![w] + words(rest));
    if words(rest).len() > 0 {
        assert(all.skip(1) =~= beginnings(words(rest)));
        lemma_join_first(all, " OR "@);
    } else {
        assert(seq![w] + words(rest) =~= seq![w]);
    }
}

/// In notes every word is asked for, as the beginning of a word in quotes: of a word and a rest, it is
/// the word and what is asked for the rest.
pub proof fn law_all_words_are_asked_for(w: Seq<char>, blank: char, rest: Seq<char>)
    requires
        w.len() > 0,
        forall|k: int| 0 <= k < w.len() ==> !is_space(#[trigger] w[k]),
        is_space(blank),
    ensures
        all_words(w) == "\""@ + strip_both(w, '"') + "\"*"@,
        words(rest).len() > 0 ==> all_words(w + seq![blank] + rest) == all_words(w) + " "@
            + all_words(rest),
        words(rest).len() == 0 ==> all_words(w + seq![blank] + rest) == all_words(w),
{
    law_every_word_is_found(w, blank, rest);
    assert(quoted_beginnings(seq![w]) =~= seq!["\""@ + strip_both(w, '"') + "\"*"@]);
    let all = quoted_beginnings(seq![w] + words(rest));
    if words(rest).len() > 0 {
        assert(all.skip(1) =~= quoted_beginnings(words(rest)));
        lemma_join_first(all, " "@);
    } else {
        assert(seq![w] + words(rest) =~= seq![w]);
    }
}

/// A search for knowledge looks for what was typed in titles and in contents. With a domain it stays in
/// that domain; without one it asks the index too.
pub proof fn law_knowledge_is_looked_for(
    query: Seq<char>,
    domain: Option<Seq<char>>,
    limit: nat,
)
    ensures
        ({
            let q = knowledge_query(query, domain, limit);
            &&& q.binds.len() == 3
            &&& q.binds[0] == match domain {
                Some(d) => d,
                None => any_word(query),
            }
            &&& q.binds[1] == "%"@ + query + "%"@
            &&& q.binds[2] == "%"@ + query + "%"@
        }),
{
}

/// Where the words of a query stand in a note whose text is in lower case, the snippet shows them.
pub proof fn law_found_note_shows_the_query(content: Seq<char>, query: Seq<char>, max_len: int)
    requires
        0 <= max_len,
        lowercase_of(plain_text(content)) == plain_text(content),
        contains(plain_text(content), lowercase_of(query)),
    ensures
        contains(note_snippet(content, query, max_len), lowercase_of(query)),
{
    let plain = plain_text(content);
    let q = lowercase_of(query);
    let len = q.len() as int;
    lemma_find_from(plain, q, 0);
    let k = find_from(plain, q, 0)->0;
    lemma_bytes_of_match(plain, q, k);
    law_snippet_shows_the_match(plain, k, len, max_len);
    let s = note_snippet(content, query, max_len);
    let i = choose|i: int|
        0 <= i && i + len <= s.len() && #[trigger] s.subrange(i, i + len) == plain.subrange(
            k,
            k + len,
        );
    assert(matches_at(s, q, i));
    lemma_find_from(s, q, 0);
}

/// The bytes of a match are those up to its end without those up to its beginning.
proof fn lemma_bytes_of_match(s: Seq<char>, q: Seq<char>, k: int)
    requires
        matches_at(s, q, k),
    ensures
        byte_len(s.take(k + q.len())) == byte_len(s.take(k)) + byte_len(q),
    decreases q.len(),
{
    if q.len() > 0 {
        let n = q.len() as int;
        let front = q.drop_last();
        assert(s.subrange(k, k + n - 1) =~= s.subrange(k, k + n).drop_last());
        lemma_bytes_of_match(s, front, k);
        assert(s.take(k + n).drop_last() =~= s.take(k + n - 1));
        assert(s.take(k + n).last() == s.subrange(k, k + n)[n - 1]);
    } else {
        assert(s.take(k + 0) =~= s.take(k));
    }
}

} // verus!
