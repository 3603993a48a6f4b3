//! Notes: what their text says, and what may be done with them.
use vstd::prelude::*;
use vstd::string::*;
use vstd::utf8::encode_utf8;

use crate::citation_export::names_in;
use crate::digest::{hex_encode, hex_of, sha256, sha256_of};
use crate::json::{json_array_text, print_strings};
use crate::models::Note;
use crate::text::{
    at, byte_len, chars_of, concat3, copy_opt, opt_text, same, find_at, find_from, has_prefix,
    holds, lemma_texts_push, lines, lines_of, list_has, lowercase_of, matches_at, replace, replaced,
    slice, starts_with, texts, to_lowercase, trim, trim_start, trimmed, trimmed_start, utf8_len,
    utf8_width,
};

verus! {

// ---------------------------------------------------------------------------------------------
// Plain text
// ---------------------------------------------------------------------------------------------
/// A text without the commonest signs of Markdown.
pub open spec fn plain_text(s: Seq<char>) -> Seq<char> {
    let none = Seq::<char>::empty();
    let s = replace(replace(replace(replace(s, "**"@, none), "__"@, none), "*"@, none), "_"@, none);
    let s = replace(replace(replace(s, "`"@, none), "#"@, none), "> "@, none);
    replace(replace(replace(replace(s, "["@, none), "]"@, none), "("@, none), ")"@, none)
}

/// Drops the commonest signs of Markdown.
pub fn strip_markdown(content: &str) -> (r: String)
    ensures
        r@ == plain_text(content@),
{
    proof {
        reveal_strlit("**");
        reveal_strlit("__");
        reveal_strlit("*");
        reveal_strlit("_");
        reveal_strlit("`");
        reveal_strlit("#");
        reveal_strlit("> ");
        reveal_strlit("[");
        reveal_strlit("]");
        reveal_strlit("(");
        reveal_strlit(")");
        reveal_strlit("");
        assert(""@ =~= Seq::<char>::empty());
    }
    let s = replaced(content, "**", "");
    let s = replaced(s.as_str(), "__", "");
    let s = replaced(s.as_str(), "*", "");
    let s = replaced(s.as_str(), "_", "");
    let s = replaced(s.as_str(), "`", "");
    let s = replaced(s.as_str(), "#", "");
    let s = replaced(s.as_str(), "> ", "");
    let s = replaced(s.as_str(), "[", "");
    let s = replaced(s.as_str(), "]", "");
    let s = replaced(s.as_str(), "(", "");
    replaced(s.as_str(), ")", "")
}

// ---------------------------------------------------------------------------------------------
// Snippets
// ---------------------------------------------------------------------------------------------
/// How many characters from the `i`-th on fit into `n` bytes, counted from the start.
pub open spec fn fit_from(s: Seq<char>, n: int, i: int) -> int
    decreases s.len() - i,
{
    if 0 <= i < s.len() && utf8_len(s[i]) <= n {
        fit_from(s, n - utf8_len(s[i]), i + 1)
    } else {
        i
    }
}

/// How many characters of a text fit into `n` bytes.
pub open spec fn fit(s: Seq<char>, n: int) -> int {
    fit_from(s, n, 0)
}

/// The last position of a byte, at most `n`, at which a character ends or begins.
pub open spec fn boundary(s: Seq<char>, n: int) -> nat {
    byte_len(s.take(fit(s, n)))
}

/// How many characters fit into `n` bytes, and how many bytes they take.
pub fn fit_of(s: &Vec<char>, n: u128) -> (r: (usize, u128))
    ensures
        r.0 == fit(s@, n as int),
        r.0 <= s.len(),
        r.1 == byte_len(s@.take(r.0 as int)),
        r.1 <= n,
{
    let mut i: usize = 0;
    let mut used: u128 = 0;
    assert(s@.take(0) =~= Seq::empty());
    while i < s.len()
        invariant
            i <= s.len(),
            used <= n,
            used == byte_len(s@.take(i as int)),
            fit(s@, n as int) == fit_from(s@, n - used, i as int),
        decreases s.len() - i,
    {
        let w = utf8_width(s[i]) as u128;
        if w > n - used {
            return (i, used);
        }
        proof {
            assert(s@.take(i + 1).drop_last() =~= s@.take(i as int));
            assert(s@.take(i + 1).last() == s@[i as int]);
        }
        used = used + w;
        i += 1;
    }
    (i, used)
}

/// Rounds the position of a byte down to where a character ends or begins.
pub fn floor_char_boundary(s: &str, idx: usize) -> (r: usize)
    ensures
        r == boundary(s@, idx as int),
        r <= idx,
{
    let a = chars_of(s);
    let (_, used) = fit_of(&a, idx as u128);
    used as usize
}

/// How many bytes the first `k` characters take.
pub fn bytes_of(s: &Vec<char>, k: usize) -> (r: u128)
    requires
        k <= s.len(),
    ensures
        r == byte_len(s@.take(k as int)),
        r <= 4 * k,
{
    let mut i: usize = 0;
    let mut n: u128 = 0;
    assert(s@.take(0) =~= Seq::empty());
    while i < k
        invariant
            i <= k <= s.len(),
            n == byte_len(s@.take(i as int)),
            n <= 4 * i,
        decreases k - i,
    {
        proof {
            assert(s@.take(i + 1).drop_last() =~= s@.take(i as int));
            assert(s@.take(i + 1).last() == s@[i as int]);
        }
        n = n + utf8_width(s[i]) as u128;
        i += 1;
    }
    n
}

/// A number less another, but not less than 0.
pub open spec fn less(a: int, b: int) -> int {
    if a < b {
        0
    } else {
        a - b
    }
}

/// The greater of two numbers.
pub open spec fn greater(a: int, b: int) -> int {
    if a < b {
        b
    } else {
        a
    }
}

/// The byte at which `q` first stands in `s`; 0 where it does not.
pub open spec fn match_byte(s: Seq<char>, q: Seq<char>) -> int {
    match find_from(s, q, 0) {
        Some(k) => byte_len(s.take(k)) as int,
        None => 0,
    }
}

/// The first character of a snippet, where the match stands at byte `pos`.
pub open spec fn snippet_start(plain: Seq<char>, pos: int) -> int {
    fit(plain, less(pos, 40))
}

/// The end of a snippet: it reaches over `max_len` bytes, and at least to the end of the match.
pub open spec fn snippet_end(plain: Seq<char>, pos: int, match_len: int, max_len: int) -> int {
    let start = boundary(plain, less(pos, 40));
    fit(plain, greater(start + max_len, pos + match_len))
}

/// A snippet of a plain text, with an ellipsis at each end at which something is left out.
pub open spec fn snippet_of(plain: Seq<char>, pos: int, match_len: int, max_len: int) -> Seq<char> {
    let a = snippet_start(plain, pos);
    let b = snippet_end(plain, pos, match_len, max_len);
    (if a > 0 {
        seq!['…']
    } else {
        Seq::empty()
    }) + plain.subrange(a, b) + (if b < plain.len() {
        seq!['…']
    } else {
        Seq::empty()
    })
}

/// The snippet of a note for a query.
pub open spec fn note_snippet(content: Seq<char>, query: Seq<char>, max_len: int) -> Seq<char> {
    let plain = plain_text(content);
    let q = lowercase_of(query);
    snippet_of(plain, match_byte(lowercase_of(plain), q), byte_len(q) as int, max_len)
}

/// A snippet of a plain text whose match stands at byte `pos` and takes `match_len` bytes.
pub fn cut_snippet(plain: &str, pos: u128, match_len: u128, max_len: usize) -> (r: String)
    requires
        pos + match_len <= u128::MAX / 2,
    ensures
        r@ == snippet_of(plain@, pos as int, match_len as int, max_len as int),
{
    let a = chars_of(plain);
    let back: u128 = if pos < 40 {
        0
    } else {
        pos - 40
    };
    let (start, start_byte) = fit_of(&a, back);
    let over: u128 = start_byte + max_len as u128;
    let reach: u128 = if over < pos + match_len {
        pos + match_len
    } else {
        over
    };
    let (end, _) = fit_of(&a, reach);
    proof {
        lemma_fit_monotonic(plain@, back as int, reach as int, 0);
    }
    let mut out = String::new();
    if start > 0 {
        out.push('…');
    }
    out.append(slice(&a, start, end).as_str());
    if end < a.len() {
        out.push('…');
    }
    proof {
        assert(Seq::<char>::empty().push('…') =~= seq!['…']);
        let m = plain@.subrange(start as int, end as int);
        assert(out@ =~= snippet_of(plain@, pos as int, match_len as int, max_len as int));
    }
    out
}

pub proof fn lemma_fit_monotonic(s: Seq<char>, n: int, m: int, i: int)
    requires
        n <= m,
    ensures
        fit_from(s, n, i) <= fit_from(s, m, i),
    decreases s.len() - i,
{
    if 0 <= i < s.len() && utf8_len(s[i]) <= n {
        lemma_fit_monotonic(s, n - utf8_len(s[i]), m - utf8_len(s[i]), i + 1);
    } else {
        lemma_fit_from(s, m, i);
    }
}

pub proof fn lemma_fit_from(s: Seq<char>, n: int, i: int)
    ensures
        fit_from(s, n, i) >= i,
        i <= s.len() ==> fit_from(s, n, i) <= s.len(),
    decreases s.len() - i,
{
    if 0 <= i < s.len() && utf8_len(s[i]) <= n {
        lemma_fit_from(s, n - utf8_len(s[i]), i + 1);
    }
}

/// A short piece of a note's text around the first match of a query, whatever its case.
pub fn make_snippet(content: &str, query: &str, max_len: usize) -> (r: String)
    ensures
        r@ == note_snippet(content@, query@, max_len as int),
{
    let plain = strip_markdown(content);
    let low = chars_of(to_lowercase(plain.as_str()).as_str());
    let q = chars_of(to_lowercase(query).as_str());
    let pos = match find_at(&low, &q, 0) {
        Some(k) => bytes_of(&low, k),
        None => 0,
    };
    let n = bytes_of(&q, q.len());
    assert(q@.take(q@.len() as int) =~= q@);
    cut_snippet(plain.as_str(), pos, n, max_len)
}

/// What fits reaches as far as a position whose bytes fit.
proof fn lemma_fit_reaches(s: Seq<char>, n: int, i: int, k: int)
    requires
        0 <= i <= k <= s.len(),
        byte_len(s.take(k)) - byte_len(s.take(i)) <= n,
    ensures
        fit_from(s, n, i) >= k,
    decreases k - i,
{
    if i < k {
        assert(s.take(i + 1).drop_last() =~= s.take(i));
        assert(s.take(i + 1).last() == s[i]);
        lemma_bytes_grow(s, i + 1, k);
        lemma_fit_reaches(s, n - utf8_len(s[i]), i + 1, k);
    } else {
        lemma_fit_from(s, n, i);
    }
}

proof fn lemma_bytes_grow(s: Seq<char>, i: int, k: int)
    requires
        0 <= i <= k <= s.len(),
    ensures
        byte_len(s.take(i)) <= byte_len(s.take(k)),
{
    assert(s.take(k).take(i) =~= s.take(i));
    crate::text::lemma_byte_len_prefix(s.take(k), i);
}

/// What fits ends before a position whose bytes do not.
proof fn lemma_fit_stops(s: Seq<char>, n: int, i: int, k: int)
    requires
        0 <= i <= k <= s.len(),
        byte_len(s.take(k)) - byte_len(s.take(i)) >= n,
    ensures
        fit_from(s, n, i) <= k,
    decreases k - i,
{
    if i < k && utf8_len(s[i]) <= n {
        assert(s.take(i + 1).drop_last() =~= s.take(i));
        assert(s.take(i + 1).last() == s[i]);
        lemma_fit_stops(s, n - utf8_len(s[i]), i + 1, k);
    }
}

/// A snippet covers the match: where a match of `len` characters stands at the `k`-th one, the
/// snippet begins no later and ends no earlier.
pub proof fn law_snippet_covers_match(plain: Seq<char>, k: int, len: int, max_len: int)
    requires
        0 <= k,
        0 <= len,
        k + len <= plain.len(),
        0 <= max_len,
    ensures
        ({
            let pos = byte_len(plain.take(k)) as int;
            let match_len = byte_len(plain.take(k + len)) - pos;
            &&& snippet_start(plain, pos) <= k
            &&& snippet_end(plain, pos, match_len, max_len) >= k + len
        }),
{
    let pos = byte_len(plain.take(k)) as int;
    let match_len = byte_len(plain.take(k + len)) - pos;
    lemma_bytes_grow(plain, k, k + len);
    assert(plain.take(0) =~= Seq::empty());
    lemma_fit_stops(plain, less(pos, 40), 0, k);
    let start = boundary(plain, less(pos, 40));
    lemma_fit_reaches(plain, greater(start + max_len, pos + match_len), 0, k + len);
}

// ---------------------------------------------------------------------------------------------
// Links
// ---------------------------------------------------------------------------------------------
/// The links from the `i`-th character on, on top of those in `links`: what stands between `[[` and
/// the next `]]`, trimmed. Empty ones and those that are there already are left out.
pub open spec fn links_from(s: Seq<char>, i: int, links: Seq<Seq<char>>) -> Seq<Seq<char>>
    decreases s.len() - i,
{
    if i < 0 || i + 3 > s.len() {
        links
    } else if matches_at(s, "[["@, i) {
        match find_from(s, "]]"@, i + 2) {
            Some(j) => if i + 2 <= j && j + 2 <= s.len() {
                let link = trim(s.subrange(i + 2, j));
                links_from(
                    s,
                    j + 2,
                    if link.len() > 0 && !holds(links, link) {
                        links.push(link)
                    } else {
                        links
                    },
                )
            } else {
                links
            },
            None => links_from(s, i + 1, links),
        }
    } else {
        links_from(s, i + 1, links)
    }
}

/// The links of a note.
pub open spec fn wiki_links(content: Seq<char>) -> Seq<Seq<char>> {
    links_from(content, 0, Seq::empty())
}

/// The `[[links]]` of a note, each once.
pub fn parse_wiki_links(content: &str) -> (r: Vec<String>)
    ensures
        texts(r@) == wiki_links(content@),
{
    broadcast use lemma_texts_push;

    proof {
        reveal_strlit("]]");
        reveal_strlit("[[");
    }
    let a = chars_of(content);
    let open = chars_of("[[");
    let close = chars_of("]]");
    let mut links: Vec<String> = Vec::new();
    let mut i: usize = 0;
    assert(texts(links@) =~= Seq::empty());
    while a.len() >= 3 && i <= a.len() - 3
        invariant
            a@ == content@,
            open@ == "[["@,
            close@ == "]]"@,
            close@.len() == 2,
            i <= a.len(),
            wiki_links(content@) == links_from(content@, i as int, texts(links@)),
        decreases a.len() - i,
    {
        if at(&a, &open, i) {
            match find_at(&a, &close, i + 2) {
                Some(j) => {
                    let ghost before = texts(links@);
                    let link = trimmed(slice(&a, i + 2, j).as_str());
                    if !link.as_str().is_empty() && !list_has(&links, link.as_str()) {
                        links.push(link);
                        assert(texts(links@) =~= before.push(link@));
                    }
                    i = j + 2;
                    continue;
                },
                None => {},
            }
        }
        i += 1;
    }
    links
}

/// Whether no text of a list is empty or stands twice.
pub open spec fn distinct_texts(list: Seq<Seq<char>>) -> bool {
    &&& forall|i: int| 0 <= i < list.len() ==> (#[trigger] list[i]).len() > 0
    &&& forall|i: int, j: int| 0 <= i < j < list.len() ==> list[i] != list[j]
}

proof fn lemma_links_distinct(s: Seq<char>, i: int, links: Seq<Seq<char>>)
    requires
        distinct_texts(links),
    ensures
        distinct_texts(links_from(s, i, links)),
    decreases s.len() - i,
{
    if i < 0 || i + 3 > s.len() {
    } else if matches_at(s, "[["@, i) {
        match find_from(s, "]]"@, i + 2) {
            Some(j) => {
                if i + 2 <= j && j + 2 <= s.len() {
                    let link = trim(s.subrange(i + 2, j));
                    if link.len() > 0 && !holds(links, link) {
                        lemma_push_distinct(links, link);
                        lemma_links_distinct(s, j + 2, links.push(link));
                    } else {
                        lemma_links_distinct(s, j + 2, links);
                    }
                }
            },
            None => lemma_links_distinct(s, i + 1, links),
        }
    } else {
        lemma_links_distinct(s, i + 1, links);
    }
}

proof fn lemma_push_distinct(list: Seq<Seq<char>>, x: Seq<char>)
    requires
        distinct_texts(list),
        x.len() > 0,
        !holds(list, x),
    ensures
        distinct_texts(list.push(x)),
{
    let r = list.push(x);
    assert forall|i: int| 0 <= i < r.len() implies (#[trigger] r[i]).len() > 0 by {
        if i < list.len() {
            assert(r[i] == list[i]);
        }
    }
    assert forall|i: int, j: int| 0 <= i < j < r.len() implies r[i] != r[j] by {
        assert(r[i] == list[i]);
        if j < list.len() {
            assert(r[j] == list[j]);
        }
    }
}

/// The links of a note are not empty, and none stands twice.
pub proof fn law_links_are_distinct(content: Seq<char>)
    ensures
        distinct_texts(wiki_links(content)),
{
    lemma_links_distinct(content, 0, Seq::empty());
}

// ---------------------------------------------------------------------------------------------
// Tags
// ---------------------------------------------------------------------------------------------
/// ASCII white space.
pub open spec fn ascii_space(c: char) -> bool {
    c == ' ' || c == '\t' || c == '\n' || c == '\u{c}' || c == '\r'
}

/// The characters that end a tag.
pub open spec fn ends_tag(c: char) -> bool {
    ascii_space(c) || c == '#' || c == '(' || c == ')' || c == ',' || c == ']' || c == '['
}

/// The first position from `i` on at which a tag ends.
pub open spec fn tag_end(s: Seq<char>, i: int) -> int
    decreases s.len() - i,
{
    if 0 <= i < s.len() && !ends_tag(s[i]) {
        tag_end(s, i + 1)
    } else {
        i
    }
}

/// The tags of a line from the `i`-th character on, on top of those in `tags`: a `#` at the start
/// or behind white space, and what follows it.
pub open spec fn tags_from(s: Seq<char>, i: int, tags: Seq<Seq<char>>) -> Seq<Seq<char>>
    decreases s.len() - i,
{
    if i < 0 || i >= s.len() {
        tags
    } else if s[i] == '#' {
        let j = tag_end(s, i + 1);
        if i + 1 <= j <= s.len() {
            let tag = s.subrange(i + 1, j);
            let first = i == 0 || ascii_space(s[i - 1]);
            tags_from(
                s,
                j,
                if first && tag.len() > 0 && !holds(tags, tag) {
                    tags.push(tag)
                } else {
                    tags
                },
            )
        } else {
            tags
        }
    } else {
        tags_from(s, i + 1, tags)
    }
}

/// How far the reading of the tags has come.
pub struct TagState {
    pub tags: Seq<Seq<char>>,
    pub in_code: bool,
}

/// Takes a line in: a fence opens or closes a block of code, in which there are no tags.
pub open spec fn tag_line(s: TagState, line: Seq<char>) -> TagState {
    if starts_with(trim_start(line), "```"@) {
        TagState { in_code: !s.in_code, ..s }
    } else if s.in_code {
        s
    } else {
        TagState { tags: tags_from(line, 0, s.tags), ..s }
    }
}

/// Takes lines in, one after the other.
pub open spec fn tag_lines(list: Seq<Seq<char>>) -> TagState
    decreases list.len(),
{
    if list.len() == 0 {
        TagState { tags: Seq::empty(), in_code: false }
    } else {
        tag_line(tag_lines(list.drop_last()), list.last())
    }
}

/// The tags of a note.
pub open spec fn note_tags(content: Seq<char>) -> Seq<Seq<char>> {
    tag_lines(lines(content)).tags
}

fn is_tag_end(c: char) -> (r: bool)
    ensures
        r == ends_tag(c),
{
    c == ' ' || c == '\t' || c == '\n' || c == '\u{c}' || c == '\r' || c == '#' || c == '(' || c
        == ')' || c == ',' || c == ']' || c == '['
}

fn add_line_tags(line: &str, tags: &mut Vec<String>)
    ensures
        texts(final(tags)@) == tags_from(line@, 0, texts(old(tags)@)),
{
    broadcast use lemma_texts_push;

    let a = chars_of(line);
    let ghost goal = tags_from(line@, 0, texts(tags@));
    let mut i: usize = 0;
    while i < a.len()
        invariant
            i <= a.len(),
            a@ == line@,
            goal == tags_from(line@, i as int, texts(tags@)),
        decreases a.len() - i,
    {
        if a[i] == '#' {
            let mut j: usize = i + 1;
            while j < a.len() && !is_tag_end(a[j])
                invariant
                    i < j <= a.len(),
                    a@ == line@,
                    tag_end(line@, i + 1) == tag_end(line@, j as int),
                decreases a.len() - j,
            {
                j += 1;
            }
            let first = i == 0 || a[i - 1] == ' ' || a[i - 1] == '\t' || a[i - 1] == '\n' || a[i - 1]
                == '\u{c}' || a[i - 1] == '\r';
            let ghost before = texts(tags@);
            let tag = slice(&a, i + 1, j);
            if first && j > i + 1 && !list_has(tags, tag.as_str()) {
                tags.push(tag);
                assert(texts(tags@) =~= before.push(tag@));
            }
            i = j;
        } else {
            i += 1;
        }
    }
}

/// The tags of a note, each once.
pub fn tags_of(content: &str) -> (r: Vec<String>)
    ensures
        texts(r@) == note_tags(content@),
{
    let list = lines_of(content);
    let ghost all = texts(list@);
    let mut tags: Vec<String> = Vec::new();
    let mut in_code = false;
    assert(texts(tags@) =~= Seq::empty());
    let mut i: usize = 0;
    while i < list.len()
        invariant
            i <= list.len(),
            all == texts(list@),
            (TagState { tags: texts(tags@), in_code }) == tag_lines(all.take(i as int)),
        decreases list.len() - i,
    {
        proof {
            assert(all.take(i + 1).drop_last() =~= all.take(i as int));
            assert(all.take(i + 1).last() == all[i as int]);
        }
        let line = list[i].as_str();
        if has_prefix(trimmed_start(line).as_str(), "```") {
            in_code = !in_code;
        } else if !in_code {
            add_line_tags(line, &mut tags);
        }
        i += 1;
    }
    assert(all.take(all.len() as int) =~= all);
    tags
}

/// The `#tags` of a note as a JSON array. In fenced code there are none.
pub fn parse_tags(content: &str) -> (r: String)
    ensures
        r@ == json_array_text(note_tags(content@)),
        names_in(r@) == note_tags(content@),
{
    print_strings(&tags_of(content))
}

// ---------------------------------------------------------------------------------------------
// The library folder
// ---------------------------------------------------------------------------------------------
/// The name of the folder below which the notes on papers stand.
pub fn system_library_name() -> (r: &'static str)
    ensures
        r@ == "我的图书馆"@,
{
    "我的图书馆"
}

/// The digest that the identifier of a vault's library folder is made from.
pub open spec fn folder_digest(vault_id: Seq<char>) -> Seq<char> {
    hex_of(
        sha256_of(
            encode_utf8("siku:system-library-folder:"@) + encode_utf8(vault_id),
        ).take(16),
    )
}

/// Thirty-two digits in groups of eight, four, four, four and twelve.
pub open spec fn grouped(h: Seq<char>) -> Seq<char> {
    h.subrange(0, 8) + "-"@ + h.subrange(8, 12) + "-"@ + h.subrange(12, 16) + "-"@ + h.subrange(
        16,
        20,
    ) + "-"@ + h.subrange(20, 32)
}

/// The identifier of a vault's library folder. Every device finds the same one, so that syncing
/// brings the folders together.
pub fn system_library_folder_id(vault_id: &str) -> (r: String)
    ensures
        r@ == grouped(folder_digest(vault_id@)),
        r@.len() == 36,
{
    let mut bytes: Vec<u8> = Vec::new();
    push_bytes(&mut bytes, "siku:system-library-folder:".as_bytes());
    push_bytes(&mut bytes, vault_id.as_bytes());
    assert(bytes@ =~= encode_utf8("siku:system-library-folder:"@) + encode_utf8(vault_id@));
    let digest = sha256(&bytes);
    let text = hex_encode(&digest[0..16]);
    assert(digest@.subrange(0, 16) =~= digest@.take(16));
    let h = chars_of(text.as_str());
    let mut s = slice(&h, 0, 8);
    s.append("-");
    s.append(slice(&h, 8, 12).as_str());
    s.append("-");
    s.append(slice(&h, 12, 16).as_str());
    s.append("-");
    s.append(slice(&h, 16, 20).as_str());
    s.append("-");
    s.append(slice(&h, 20, 32).as_str());
    proof {
        reveal_strlit("-");
    }
    s
}

/// Appends bytes.
fn push_bytes(out: &mut Vec<u8>, more: &[u8])
    ensures
        final(out)@ == old(out)@ + more@,
{
    let ghost before = out@;
    let mut i: usize = 0;
    assert(before + more@.take(0) =~= before);
    while i < more.len()
        invariant
            i <= more.len(),
            out@ == before + more@.take(i as int),
        decreases more.len() - i,
    {
        out.push(more[i]);
        i += 1;
        assert(out@ =~= before + more@.take(i as int));
    }
    assert(more@.take(more@.len() as int) =~= more@);
}

/// What has to be done so that a vault has its one library folder.
pub enum LibraryFolder {
    /// It is there.
    Present,
    /// It is created.
    Create,
    /// The folders with other identifiers give their contents to it and go.
    Converge(Vec<String>),
}

/// The identifiers in a list other than the given one, in their order.
pub open spec fn others(ids: Seq<Seq<char>>, id: Seq<char>) -> Seq<Seq<char>>
    decreases ids.len(),
{
    if ids.len() == 0 {
        Seq::empty()
    } else if ids.last() == id {
        others(ids.drop_last(), id)
    } else {
        others(ids.drop_last(), id).push(ids.last())
    }
}

/// Decides how a vault gets its one library folder, given the library folders that it has: those
/// with another identifier than the fixed one converge on it, all of them.
pub fn ensure_system_library_folder(vault_id: &str, folders: &Vec<String>) -> (r: LibraryFolder)
    ensures
        ({
            let id = grouped(folder_digest(vault_id@));
            let legacy = others(texts(folders@), id);
            match r {
                LibraryFolder::Converge(v) => legacy.len() > 0 && texts(v@) == legacy,
                LibraryFolder::Present => legacy.len() == 0 && holds(texts(folders@), id),
                LibraryFolder::Create => legacy.len() == 0 && !holds(texts(folders@), id),
            }
        }),
{
    broadcast use lemma_texts_push;

    let id = system_library_folder_id(vault_id);
    let ghost all = texts(folders@);
    let mut legacy: Vec<String> = Vec::new();
    assert(texts(legacy@) =~= Seq::empty());
    let mut i: usize = 0;
    while i < folders.len()
        invariant
            i <= folders.len(),
            all == texts(folders@),
            texts(legacy@) == others(all.take(i as int), id@),
        decreases folders.len() - i,
    {
        assert(all.take(i + 1).drop_last() =~= all.take(i as int));
        let ghost before = texts(legacy@);
        if !same(folders[i].as_str(), id.as_str()) {
            legacy.push(folders[i].clone());
            assert(texts(legacy@) =~= before.push(all[i as int]));
        }
        i += 1;
    }
    assert(all.take(all.len() as int) =~= all);
    if legacy.len() > 0 {
        LibraryFolder::Converge(legacy)
    } else if list_has(folders, id.as_str()) {
        LibraryFolder::Present
    } else {
        LibraryFolder::Create
    }
}

/// Once the folders have converged there is nothing more to do: the only library folder left has
/// the fixed identifier.
pub proof fn law_converged_is_stable(id: Seq<char>)
    ensures
        others(seq![id], id) == Seq::<Seq<char>>::empty(),
        holds(seq![id], id),
{
    assert(seq![id].drop_last() =~= Seq::empty());
    assert(others(seq![id].drop_last(), id) =~= Seq::empty());
    assert(seq![id][0] == id);
}

// ---------------------------------------------------------------------------------------------
// Edits
// ---------------------------------------------------------------------------------------------
/// What is to be changed about a note. With `touch` set to `false` the note keeps its place in the
/// order of changes.
pub struct NoteEdit {
    pub title: Option<String>,
    pub content: Option<String>,
    pub paper_id: Option<String>,
    pub aliases: Option<String>,
    pub is_favorite: Option<i32>,
    pub touch: Option<bool>,
}

/// Whether anything is to be changed.
pub open spec fn edits(e: NoteEdit) -> bool {
    e.title is Some || e.content is Some || e.paper_id is Some || e.aliases is Some
        || e.is_favorite is Some
}

/// A text that replaces another, where it is given.
pub open spec fn instead(new: Option<String>, old: Seq<char>) -> Seq<char> {
    match new {
        Some(s) => s@,
        None => old,
    }
}

/// Whether `r` is the note with the edit applied at the time `now`.
pub open spec fn is_edited(n: Note, e: NoteEdit, now: Seq<char>, r: Note) -> bool {
    &&& r.id@ == n.id@
    &&& r.vault_id@ == n.vault_id@
    &&& opt_text(r.paper_id) == (match e.paper_id {
        Some(p) => Some(p@),
        None => opt_text(n.paper_id),
    })
    &&& r.title@ == instead(e.title, n.title@)
    &&& r.content@ == instead(e.content, n.content@)
    &&& r.content_plain@ == (match e.content {
        Some(c) => plain_text(c@),
        None => n.content_plain@,
    })
    &&& r.tags@ == (match e.content {
        Some(c) => json_array_text(note_tags(c@)),
        None => n.tags@,
    })
    &&& r.aliases@ == instead(e.aliases, n.aliases@)
    &&& r.is_favorite == (match e.is_favorite {
        Some(f) => f,
        None => n.is_favorite,
    })
    &&& r.is_folder == n.is_folder
    &&& r.is_system == n.is_system
    &&& opt_text(r.source_collection_id) == opt_text(n.source_collection_id)
    &&& r.is_excerpt == n.is_excerpt
    &&& opt_text(r.agent_edited_at) == opt_text(n.agent_edited_at)
    &&& r.agent_edit_count == n.agent_edit_count
    &&& opt_text(r.parent_id) == opt_text(n.parent_id)
    &&& r.sort_order == n.sort_order
    &&& r.is_literature_note == n.is_literature_note
    &&& r.created_at@ == n.created_at@
    &&& r.updated_at@ == (if edits(e) && e.touch != Some(false) {
        now
    } else {
        n.updated_at@
    })
}

fn instead_of(new: &Option<String>, old: &str) -> (r: String)
    ensures
        r@ == instead(*new, old@),
{
    match new {
        Some(s) => s.clone(),
        None => old.to_owned(),
    }
}

/// Applies an edit to a note. The library folder cannot be renamed.
pub fn update_note(n: &Note, e: &NoteEdit, now: &str) -> (r: Result<Note, String>)
    ensures
        match r {
            Ok(x) => !(e.title is Some && n.is_system == 1) && is_edited(*n, *e, now@, x),
            Err(m) => e.title is Some && n.is_system == 1 && m@
                == "不能重命名系统目录「我的图书馆」"@,
        },
{
    if e.title.is_some() && n.is_system == 1 {
        return Err("不能重命名系统目录「我的图书馆」".to_owned());
    }
    let touched = e.title.is_some() || e.content.is_some() || e.paper_id.is_some()
        || e.aliases.is_some() || e.is_favorite.is_some();
    let keep = match e.touch {
        Some(false) => true,
        _ => false,
    };
    let (content_plain, tags) = match &e.content {
        Some(c) => (strip_markdown(c.as_str()), parse_tags(c.as_str())),
        None => (n.content_plain.clone(), n.tags.clone()),
    };
    Ok(
        Note {
            id: n.id.clone(),
            vault_id: n.vault_id.clone(),
            paper_id: match &e.paper_id {
                Some(p) => Some(p.clone()),
                None => copy_opt(&n.paper_id),
            },
            title: instead_of(&e.title, n.title.as_str()),
            content: instead_of(&e.content, n.content.as_str()),
            content_plain,
            tags,
            aliases: instead_of(&e.aliases, n.aliases.as_str()),
            is_favorite: match e.is_favorite {
                Some(f) => f,
                None => n.is_favorite,
            },
            is_folder: n.is_folder,
            is_system: n.is_system,
            source_collection_id: copy_opt(&n.source_collection_id),
            is_excerpt: n.is_excerpt,
            agent_edited_at: copy_opt(&n.agent_edited_at),
            agent_edit_count: n.agent_edit_count,
            parent_id: copy_opt(&n.parent_id),
            sort_order: n.sort_order,
            is_literature_note: n.is_literature_note,
            created_at: n.created_at.clone(),
            updated_at: if touched && !keep {
                now.to_owned()
            } else {
                n.updated_at.clone()
            },
        },
    )
}

/// A note that is edited without being touched keeps its time, and so its place.
pub proof fn law_untouched_edit_keeps_time(n: Note, e: NoteEdit, now: Seq<char>, r: Note)
    requires
        is_edited(n, e, now, r),
        e.touch == Some(false) || !edits(e),
    ensures
        r.updated_at@ == n.updated_at@,
{
}

/// Whether a new note: its plain text and its tags follow from its text.
pub open spec fn is_new_note(
    id: Seq<char>,
    vault_id: Seq<char>,
    title: Seq<char>,
    content: Seq<char>,
    paper_id: Option<Seq<char>>,
    parent_id: Option<Seq<char>>,
    is_folder: bool,
    now: Seq<char>,
    r: Note,
) -> bool {
    &&& r.id@ == id
    &&& r.vault_id@ == vault_id
    &&& opt_text(r.paper_id) == paper_id
    &&& r.title@ == title
    &&& r.content@ == content
    &&& r.content_plain@ == plain_text(content)
    &&& r.tags@ == json_array_text(note_tags(content))
    &&& r.aliases@ == "[]"@
    &&& r.is_folder == (if is_folder {
        1int
    } else {
        0
    })
    &&& opt_text(r.parent_id) == parent_id
    &&& r.created_at@ == now
    &&& r.updated_at@ == now
    &&& r.is_favorite == 0 && r.is_system == 0 && r.is_excerpt == 0 && r.agent_edit_count == 0
        && r.sort_order == 0 && r.is_literature_note == 0
    &&& r.source_collection_id is None && r.agent_edited_at is None
}

/// A new note: its plain text and its tags follow from its text.
pub fn create_note(
    id: &str,
    vault_id: &str,
    title: &str,
    content: &str,
    paper_id: &Option<String>,
    parent_id: &Option<String>,
    is_folder: bool,
    now: &str,
) -> (r: Note)
    ensures
        is_new_note(
            id@,
            vault_id@,
            title@,
            content@,
            opt_text(*paper_id),
            opt_text(*parent_id),
            is_folder,
            now@,
            r,
        ),
{
    Note {
        id: id.to_owned(),
        vault_id: vault_id.to_owned(),
        paper_id: copy_opt(paper_id),
        title: title.to_owned(),
        content: content.to_owned(),
        content_plain: strip_markdown(content),
        tags: parse_tags(content),
        aliases: "[]".to_owned(),
        is_favorite: 0,
        is_folder: if is_folder {
            1
        } else {
            0
        },
        is_system: 0,
        source_collection_id: None,
        is_excerpt: 0,
        agent_edited_at: None,
        agent_edit_count: 0,
        parent_id: copy_opt(parent_id),
        sort_order: 0,
        is_literature_note: 0,
        created_at: now.to_owned(),
        updated_at: now.to_owned(),
    }
}

/// Decides whether a note may be deleted: the library folder stays.
pub fn check_deletable(is_system: Option<i32>) -> (r: Result<(), String>)
    ensures
        match r {
            Ok(_) => is_system != Some(1i32),
            Err(m) => is_system == Some(1i32) && m@ == "不能删除系统目录「我的图书馆」"@,
        },
{
    match is_system {
        Some(1) => Err("不能删除系统目录「我的图书馆」".to_owned()),
        _ => Ok(()),
    }
}

/// Decides whether a note may be moved: the library folder stays at the top.
pub fn check_movable(is_system: Option<i32>, parent_id: &Option<String>) -> (r: Result<(), String>)
    ensures
        match r {
            Ok(_) => parent_id is None || is_system != Some(1i32),
            Err(m) => parent_id is Some && is_system == Some(1i32) && m@
                == "不能移动系统目录「我的图书馆」"@,
        },
{
    match (parent_id, is_system) {
        (Some(_), Some(1)) => Err("不能移动系统目录「我的图书馆」".to_owned()),
        _ => Ok(()),
    }
}

/// The text of an excerpt note with one more excerpt, behind a rule.
pub fn excerpt_content(content: &str, excerpt: &str) -> (r: String)
    ensures
        r@ == content@ + "\n\n---\n\n"@ + excerpt@,
{
    concat3(content, "\n\n---\n\n", excerpt)
}

/// Decides whether a note may be merged into the excerpt note of a paper: it is none itself, belongs
/// to the paper and says something.
pub fn check_mergeable(n: &Note, paper_id: &str) -> (r: Result<(), String>)
    ensures
        match r {
            Ok(_) => n.is_excerpt != 1 && opt_text(n.paper_id) == Some(paper_id@) && trim(
                n.content@,
            ).len() > 0,
            Err(m) => if n.is_excerpt == 1 {
                m@ == "该笔记已是摘录笔记"@
            } else if opt_text(n.paper_id) != Some(paper_id@) {
                m@ == "笔记与文献不匹配"@
            } else {
                trim(n.content@).len() == 0 && m@ == "笔记内容为空，无需合并"@
            },
        },
{
    if n.is_excerpt == 1 {
        return Err("该笔记已是摘录笔记".to_owned());
    }
    let of_paper = match &n.paper_id {
        Some(p) => same(p.as_str(), paper_id),
        None => false,
    };
    if !of_paper {
        return Err("笔记与文献不匹配".to_owned());
    }
    if trimmed(n.content.as_str()).as_str().is_empty() {
        return Err("笔记内容为空，无需合并".to_owned());
    }
    Ok(())
}

// ---------------------------------------------------------------------------------------------
// Links between notes
// ---------------------------------------------------------------------------------------------
/// A link from a note to another, under the title by which it was written.
pub struct StoredLink {
    pub source_id: String,
    pub target_id: String,
    pub context: String,
}

/// A link, read as its texts.
pub struct StoredLinkModel {
    pub source_id: Seq<char>,
    pub target_id: Seq<char>,
    pub context: Seq<char>,
}

/// The texts of links.
pub open spec fn stored_links(v: Seq<StoredLink>) -> Seq<StoredLinkModel> {
    Seq::new(
        v.len(),
        |i: int|
            StoredLinkModel {
                source_id: v[i].source_id@,
                target_id: v[i].target_id@,
                context: v[i].context@,
            },
    )
}

/// The id and the title of a note.
pub struct TitledNote {
    pub id: String,
    pub title: String,
}

/// The id of the first note from `i` on with a title.
pub open spec fn titled_from(notes: Seq<TitledNote>, title: Seq<char>, i: int) -> Option<Seq<char>>
    decreases notes.len() - i,
{
    if i < 0 || i >= notes.len() {
        None
    } else if notes[i].title@ == title {
        Some(notes[i].id@)
    } else {
        titled_from(notes, title, i + 1)
    }
}

/// Whether a note is linked to another.
pub open spec fn is_linked(links: Seq<StoredLinkModel>, source: Seq<char>, target: Seq<char>) -> bool {
    exists|k: int|
        0 <= k < links.len() && (#[trigger] links[k]).source_id == source && links[k].target_id
            == target
}

/// The links of other notes.
pub open spec fn links_of_others(links: Seq<StoredLinkModel>, source: Seq<char>) -> Seq<
    StoredLinkModel,
>
    decreases links.len(),
{
    if links.len() == 0 {
        links
    } else if links.last().source_id == source {
        links_of_others(links.drop_last(), source)
    } else {
        links_of_others(links.drop_last(), source).push(links.last())
    }
}

/// Links with those to the titles that a note names. A title that no note has, and a note that is
/// linked already, add none.
pub open spec fn links_added(
    links: Seq<StoredLinkModel>,
    notes: Seq<TitledNote>,
    source: Seq<char>,
    targets: Seq<Seq<char>>,
) -> Seq<StoredLinkModel>
    decreases targets.len(),
{
    if targets.len() == 0 {
        links
    } else {
        let before = links_added(links, notes, source, targets.drop_last());
        match titled_from(notes, targets.last(), 0) {
            Some(id) => if is_linked(before, source, id) {
                before
            } else {
                before.push(
                    StoredLinkModel { source_id: source, target_id: id, context: targets.last() },
                )
            },
            None => before,
        }
    }
}

fn find_titled(notes: &Vec<TitledNote>, title: &str) -> (r: Option<String>)
    ensures
        opt_text(r) == titled_from(notes@, title@, 0),
{
    let mut i: usize = 0;
    while i < notes.len()
        invariant
            i <= notes.len(),
            titled_from(notes@, title@, 0) == titled_from(notes@, title@, i as int),
        decreases notes.len() - i,
    {
        if same(notes[i].title.as_str(), title) {
            return Some(notes[i].id.clone());
        }
        i += 1;
    }
    None
}

fn linked(links: &Vec<StoredLink>, source: &str, target: &str) -> (r: bool)
    ensures
        r == is_linked(stored_links(links@), source@, target@),
{
    let ghost all = stored_links(links@);
    let mut i: usize = 0;
    while i < links.len()
        invariant
            i <= links.len(),
            all == stored_links(links@),
            forall|k: int|
                0 <= k < i ==> !((#[trigger] all[k]).source_id == source@ && all[k].target_id
                    == target@),
        decreases links.len() - i,
    {
        assert(all[i as int].source_id == links@[i as int].source_id@);
        assert(all[i as int].target_id == links@[i as int].target_id@);
        if same(links[i].source_id.as_str(), source) && same(links[i].target_id.as_str(), target) {
            return true;
        }
        i += 1;
    }
    false
}

/// The links once a note was written: its old ones go, and the titles that it names are linked.
pub fn update_note_links(
    links: &Vec<StoredLink>,
    notes: &Vec<TitledNote>,
    source_id: &str,
    targets: &Vec<String>,
) -> (r: Vec<StoredLink>)
    ensures
        stored_links(r@) == links_added(
            links_of_others(stored_links(links@), source_id@),
            notes@,
            source_id@,
            texts(targets@),
        ),
{
    let ghost all = stored_links(links@);
    let mut out: Vec<StoredLink> = Vec::new();
    let mut i: usize = 0;
    assert(stored_links(out@) =~= links_of_others(all.take(0), source_id@));
    while i < links.len()
        invariant
            i <= links.len(),
            all == stored_links(links@),
            stored_links(out@) == links_of_others(all.take(i as int), source_id@),
        decreases links.len() - i,
    {
        let ghost before = stored_links(out@);
        proof {
            assert(all.take(i + 1).drop_last() =~= all.take(i as int));
            assert(all.take(i + 1).last() == all[i as int]);
        }
        if !same(links[i].source_id.as_str(), source_id) {
            out.push(
                StoredLink {
                    source_id: links[i].source_id.clone(),
                    target_id: links[i].target_id.clone(),
                    context: links[i].context.clone(),
                },
            );
            assert(stored_links(out@) =~= before.push(all[i as int]));
        }
        i += 1;
    }
    assert(all.take(all.len() as int) =~= all);
    let ghost start = stored_links(out@);
    let ghost names = texts(targets@);
    let mut j: usize = 0;
    assert(links_added(start, notes@, source_id@, names.take(0)) =~= start);
    while j < targets.len()
        invariant
            j <= targets.len(),
            names == texts(targets@),
            stored_links(out@) == links_added(start, notes@, source_id@, names.take(j as int)),
        decreases targets.len() - j,
    {
        let ghost before = stored_links(out@);
        proof {
            assert(names.take(j + 1).drop_last() =~= names.take(j as int));
            assert(names.take(j + 1).last() == targets@[j as int]@);
        }
        if let Some(id) = find_titled(notes, targets[j].as_str()) {
            if !linked(&out, source_id, id.as_str()) {
                let ghost l = StoredLinkModel {
                    source_id: source_id@,
                    target_id: id@,
                    context: targets@[j as int]@,
                };
                out.push(
                    StoredLink {
                        source_id: source_id.to_owned(),
                        target_id: id,
                        context: targets[j].clone(),
                    },
                );
                assert(stored_links(out@) =~= before.push(l));
            }
        }
        j += 1;
    }
    assert(names.take(names.len() as int) =~= names);
    out
}

// ---------------------------------------------------------------------------------------------
// Folders for collections
// ---------------------------------------------------------------------------------------------
/// Whether a note is the folder of a collection below a parent.
pub open spec fn is_collection_folder(
    n: Note,
    vault_id: Seq<char>,
    parent: Option<Seq<char>>,
    collection: Seq<char>,
) -> bool {
    n.vault_id@ == vault_id && n.is_folder == 1 && opt_text(n.source_collection_id) == Some(
        collection,
    ) && opt_text(n.parent_id) == parent
}

fn same_opt(a: &Option<String>, b: &Option<String>) -> (r: bool)
    ensures
        r == (opt_text(*a) == opt_text(*b)),
{
    match (a, b) {
        (Some(x), Some(y)) => same(x.as_str(), y.as_str()),
        (None, None) => true,
        _ => false,
    }
}

/// The folder of a collection below a parent: the place of the first one that is there, or a new one, which
/// says which collection it is for.
pub fn ensure_collection_folder(
    notes: &Vec<Note>,
    vault_id: &str,
    parent_id: &Option<String>,
    name: &str,
    collection_id: &str,
    id: &str,
    now: &str,
) -> (r: Result<usize, Note>)
    ensures
        match r {
            Ok(k) => k < notes.len() && is_collection_folder(
                notes@[k as int],
                vault_id@,
                opt_text(*parent_id),
                collection_id@,
            ) && forall|j: int|
                0 <= j < k ==> !is_collection_folder(
                    #[trigger] notes@[j],
                    vault_id@,
                    opt_text(*parent_id),
                    collection_id@,
                ),
            Err(n) => (forall|k: int|
                0 <= k < notes.len() ==> !is_collection_folder(
                    #[trigger] notes@[k],
                    vault_id@,
                    opt_text(*parent_id),
                    collection_id@,
                )) && is_collection_folder(n, vault_id@, opt_text(*parent_id), collection_id@)
                && is_new_note(
                id@,
                vault_id@,
                name@,
                ""@,
                None,
                opt_text(*parent_id),
                true,
                now@,
                (Note { source_collection_id: None, ..n }),
            ),
        },
{
    let wanted = Some(collection_id.to_owned());
    let mut i: usize = 0;
    while i < notes.len()
        invariant
            i <= notes.len(),
            opt_text(wanted) == Some(collection_id@),
            forall|k: int|
                0 <= k < i ==> !is_collection_folder(
                    #[trigger] notes@[k],
                    vault_id@,
                    opt_text(*parent_id),
                    collection_id@,
                ),
        decreases notes.len() - i,
    {
        if same(notes[i].vault_id.as_str(), vault_id) && notes[i].is_folder == 1 && same_opt(
            &notes[i].source_collection_id,
            &wanted,
        ) && same_opt(&notes[i].parent_id, parent_id) {
            return Ok(i);
        }
        i += 1;
    }
    proof {
        reveal_strlit("");
    }
    let mut n = create_note(id, vault_id, name, "", &None, parent_id, true, now);
    n.source_collection_id = wanted;
    Err(n)
}

} // verus!
