//! Every link and every tag in the text of a note is found, and every note that is named is linked.
use vstd::prelude::*;
use vstd::string::*;

use crate::models::Note;
use crate::note_rows::{backlinks, with_id, BacklinkModel};
use crate::note_service::{
    ascii_space, boundary, ends_tag, greater, is_linked, law_snippet_covers_match, less, links_added, links_from, links_of_others, tag_end, tag_lines,
    snippet_end, snippet_of, snippet_start, tags_from, titled_from, wiki_links, StoredLinkModel, TitledNote,
};
use crate::office_laws::law_as_much_as_fits;
use crate::table::first_place;
use crate::text::{byte_len, find_from, holds, matches_at, starts_with, trim, trim_start};
use crate::text_laws::{lemma_find_moves, lemma_found, lemma_match_moves};

verus! {

proof fn lemma_holds_push(list: Seq<Seq<char>>, s: Seq<char>, x: Seq<char>)
    ensures
        holds(list.push(s), x) <==> holds(list, x) || x == s,
{
    let r = list.push(s);
    assert(r[list.len() as int] == s);
    if holds(list, x) {
        let i = choose|i: int| 0 <= i < list.len() && list[i] == x;
        assert(r[i] == x);
    }
    if holds(r, x) {
        let i = choose|i: int| 0 <= i < r.len() && r[i] == x;
        if i < list.len() {
            assert(list[i] == x);
        }
    }
}

// ---------------------------------------------------------------------------------------------
// Links
// ---------------------------------------------------------------------------------------------
proof fn lemma_links_move(p: Seq<char>, s: Seq<char>, i: int, links: Seq<Seq<char>>)
    requires
        0 <= i,
    ensures
        links_from(p + s, p.len() + i, links) == links_from(s, i, links),
    decreases s.len() - i,
{
    if i + 3 <= s.len() {
        lemma_match_moves(p, s, "[["@, i);
        lemma_find_moves(p, s, "]]"@, i + 2);
        lemma_links_move(p, s, i + 1, links);
        if matches_at(s, "[["@, i) {
            if let Some(j) = find_from(s, "]]"@, i + 2) {
                if i + 2 <= j && j + 2 <= s.len() {
                    assert((p + s).subrange(p.len() + i + 2, p.len() + j) =~= s.subrange(i + 2, j));
                    let link = trim(s.subrange(i + 2, j));
                    lemma_links_move(p, s, j + 2, links);
                    lemma_links_move(p, s, j + 2, links.push(link));
                }
            }
        }
    }
}

proof fn lemma_links_on_top(s: Seq<char>, i: int, links: Seq<Seq<char>>, x: Seq<char>)
    ensures
        holds(links_from(s, i, links), x) <==> holds(links, x) || holds(
            links_from(s, i, Seq::empty()),
            x,
        ),
        links.len() <= links_from(s, i, links).len(),
        links_from(s, i, links).take(links.len() as int) == links,
    decreases s.len() - i,
{
    let none = Seq::<Seq<char>>::empty();
    assert(!holds(none, x));
    assert(links.take(links.len() as int) =~= links);
    if 0 <= i && i + 3 <= s.len() {
        if matches_at(s, "[["@, i) {
            match find_from(s, "]]"@, i + 2) {
                Some(j) => if i + 2 <= j && j + 2 <= s.len() {
                    let link = trim(s.subrange(i + 2, j));
                    let more = links.push(link);
                    assert(!holds(none, link));
                    lemma_holds_push(links, link, x);
                    lemma_holds_push(none, link, x);
                    lemma_links_on_top(s, j + 2, links, x);
                    lemma_links_on_top(s, j + 2, more, x);
                    lemma_links_on_top(s, j + 2, none.push(link), x);
                    let r = links_from(s, j + 2, more);
                    assert(r.take(more.len() as int).take(links.len() as int) =~= r.take(
                        links.len() as int,
                    ));
                    assert(more.take(links.len() as int) =~= links);
                },
                None => lemma_links_on_top(s, i + 1, links, x),
            }
        } else {
            lemma_links_on_top(s, i + 1, links, x);
        }
    }
}

proof fn lemma_links_skip(a: Seq<char>, rest: Seq<char>, i: int, links: Seq<Seq<char>>)
    requires
        forall|k: int| 0 <= k < a.len() ==> #[trigger] a[k] != '[',
        0 <= i <= a.len(),
        rest.len() >= 3,
    ensures
        links_from(a + rest, i, links) == links_from(a + rest, a.len() as int, links),
    decreases a.len() - i,
{
    reveal_strlit("[[");
    let s = a + rest;
    if i < a.len() {
        if matches_at(s, "[["@, i) {
            assert(s.subrange(i, i + 2)[0] == "[["@[0]);
            assert(s[i] == a[i]);
        }
        lemma_links_skip(a, rest, i + 1, links);
    }
}

/// Of a text with a link between two parts the links are that link, first, and those of what stands
/// behind it.
pub proof fn law_every_link_is_found(a: Seq<char>, name: Seq<char>, b: Seq<char>, x: Seq<char>)
    requires
        forall|k: int| 0 <= k < a.len() ==> #[trigger] a[k] != '[',
        forall|k: int| 0 <= k < name.len() ==> #[trigger] name[k] != ']',
        trim(name).len() > 0,
    ensures
        ({
            let r = wiki_links(a + "[["@ + name + "]]"@ + b);
            &&& r.len() > 0
            &&& r[0] == trim(name)
            &&& holds(r, x) <==> x == trim(name) || holds(wiki_links(b), x)
        }),
{
    reveal_strlit("[[");
    reveal_strlit("]]");
    let s = a + "[["@ + name + "]]"@ + b;
    let rest = "[["@ + name + "]]"@ + b;
    let none = Seq::<Seq<char>>::empty();
    if name.len() == 0 {
        crate::text_laws::lemma_trim_same(name);
    }
    assert(s =~= a + rest);
    lemma_links_skip(a, rest, 0, none);
    let i = a.len() as int;
    let n = name.len() as int;
    assert(s.subrange(i, i + 2) =~= "[["@);
    assert(matches_at(s, "[["@, i));
    let j = i + 2 + n;
    assert(s.subrange(j, j + 2) =~= "]]"@);
    assert forall|k: int| i + 2 <= k < j implies !#[trigger] matches_at(s, "]]"@, k) by {
        if matches_at(s, "]]"@, k) {
            assert(s.subrange(k, k + 2)[0] == "]]"@[0]);
            assert(s[k] == name[k - i - 2]);
        }
    }
    lemma_found(s, "]]"@, i + 2, j);
    let link = trim(name);
    assert(s.subrange(i + 2, j) =~= name);
    assert(!holds(none, link));
    let first = none.push(link);
    assert(links_from(s, i, none) == links_from(s, j + 2, first));
    let p = a + "[["@ + name + "]]"@;
    assert(s =~= p + b);
    lemma_links_move(p, b, 0, first);
    lemma_links_on_top(b, 0, first, x);
    lemma_holds_push(none, link, x);
    assert(!holds(none, x));
    let r = links_from(b, 0, first);
    assert(r.take(1)[0] == first[0]);
}

/// A text in which no bracket stands has no links.
pub proof fn law_no_link_without_brackets(a: Seq<char>)
    requires
        forall|k: int| 0 <= k < a.len() ==> #[trigger] a[k] != '[',
    ensures
        wiki_links(a).len() == 0,
{
    lemma_no_links(a, 0);
}

proof fn lemma_no_links(a: Seq<char>, i: int)
    requires
        forall|k: int| 0 <= k < a.len() ==> #[trigger] a[k] != '[',
        0 <= i,
    ensures
        links_from(a, i, Seq::empty()).len() == 0,
    decreases a.len() - i,
{
    reveal_strlit("[[");
    if i + 3 <= a.len() {
        if matches_at(a, "[["@, i) {
            assert(a.subrange(i, i + 2)[0] == "[["@[0]);
            assert(a[i] != '[');
        }
        lemma_no_links(a, i + 1);
    }
}

// ---------------------------------------------------------------------------------------------
// Tags
// ---------------------------------------------------------------------------------------------
proof fn lemma_tag_end(s: Seq<char>, i: int)
    requires
        0 <= i <= s.len(),
    ensures
        i <= tag_end(s, i) <= s.len(),
    decreases s.len() - i,
{
    if i < s.len() && !ends_tag(s[i]) {
        lemma_tag_end(s, i + 1);
    }
}

proof fn lemma_tag_end_moves(p: Seq<char>, s: Seq<char>, i: int)
    requires
        0 <= i <= s.len(),
    ensures
        tag_end(p + s, p.len() + i) == p.len() + tag_end(s, i),
    decreases s.len() - i,
{
    if i < s.len() {
        assert((p + s)[p.len() + i] == s[i]);
        if !ends_tag(s[i]) {
            lemma_tag_end_moves(p, s, i + 1);
        }
    }
}

proof fn lemma_tags_move(p: Seq<char>, s: Seq<char>, i: int, tags: Seq<Seq<char>>)
    requires
        0 <= i,
        p.len() == 0 || ascii_space(p.last()),
    ensures
        tags_from(p + s, p.len() + i, tags) == tags_from(s, i, tags),
    decreases s.len() - i,
{
    let all = p + s;
    if i < s.len() {
        assert(all[p.len() + i] == s[i]);
        if s[i] == '#' {
            lemma_tag_end_moves(p, s, i + 1);
            lemma_tag_end(s, i + 1);
            let j = tag_end(s, i + 1);
            assert(all.subrange(p.len() + i + 1, p.len() + j) =~= s.subrange(i + 1, j));
            if i > 0 {
                assert(all[p.len() + i - 1] == s[i - 1]);
            } else if p.len() > 0 {
                assert(all[p.len() - 1] == p.last());
            }
            lemma_tags_move(p, s, j, tags);
            lemma_tags_move(p, s, j, tags.push(s.subrange(i + 1, j)));
        } else {
            lemma_tags_move(p, s, i + 1, tags);
        }
    }
}

proof fn lemma_tags_on_top(s: Seq<char>, i: int, tags: Seq<Seq<char>>, x: Seq<char>)
    ensures
        holds(tags_from(s, i, tags), x) <==> holds(tags, x) || holds(
            tags_from(s, i, Seq::empty()),
            x,
        ),
    decreases s.len() - i,
{
    let none = Seq::<Seq<char>>::empty();
    assert(!holds(none, x));
    if 0 <= i < s.len() {
        if s[i] == '#' {
            lemma_tag_end(s, i + 1);
            let j = tag_end(s, i + 1);
            let tag = s.subrange(i + 1, j);
            assert(!holds(none, tag));
            lemma_holds_push(tags, tag, x);
            lemma_holds_push(none, tag, x);
            lemma_tags_on_top(s, j, tags, x);
            lemma_tags_on_top(s, j, tags.push(tag), x);
            lemma_tags_on_top(s, j, none.push(tag), x);
        } else {
            lemma_tags_on_top(s, i + 1, tags, x);
        }
    }
}

proof fn lemma_tags_skip(a: Seq<char>, rest: Seq<char>, i: int, tags: Seq<Seq<char>>)
    requires
        forall|k: int| 0 <= k < a.len() ==> #[trigger] a[k] != '#',
        0 <= i <= a.len(),
    ensures
        tags_from(a + rest, i, tags) == tags_from(a + rest, a.len() as int, tags),
    decreases a.len() - i,
{
    if i < a.len() {
        assert((a + rest)[i] == a[i]);
        lemma_tags_skip(a, rest, i + 1, tags);
    }
}

proof fn lemma_tag_runs(s: Seq<char>, i: int, j: int)
    requires
        0 <= i <= j <= s.len(),
        forall|k: int| i <= k < j ==> !ends_tag(#[trigger] s[k]),
        j < s.len() ==> ends_tag(s[j]),
    ensures
        tag_end(s, i) == j,
    decreases j - i,
{
    if i < j {
        assert(!ends_tag(s[i]));
        lemma_tag_runs(s, i + 1, j);
    }
}

/// A tag at the start of a line or behind white space is found, whether the line ends behind it or goes
/// on behind white space; in the latter case the tags of the rest are those that it has alone.
pub proof fn law_every_tag_is_found(
    a: Seq<char>,
    tag: Seq<char>,
    blank: char,
    b: Seq<char>,
    x: Seq<char>,
)
    requires
        forall|k: int| 0 <= k < a.len() ==> #[trigger] a[k] != '#',
        a.len() == 0 || ascii_space(a.last()),
        tag.len() > 0,
        forall|k: int| 0 <= k < tag.len() ==> !ends_tag(#[trigger] tag[k]),
        ascii_space(blank),
    ensures
        holds(tags_from(a + seq!['#'] + tag, 0, Seq::empty()), x) <==> x == tag,
        holds(tags_from(a + seq!['#'] + tag + seq![blank] + b, 0, Seq::empty()), x) <==> x == tag
            || holds(tags_from(b, 0, Seq::empty()), x),
{
    let none = Seq::<Seq<char>>::empty();
    let one = none.push(tag);
    let i = a.len() as int;
    let n = tag.len() as int;
    assert(!holds(none, tag));
    assert(!holds(none, x));
    lemma_holds_push(none, tag, x);
    let short = a + seq!['#'] + tag;
    assert(short =~= a + (seq!['#'] + tag));
    lemma_tags_skip(a, seq!['#'] + tag, 0, none);
    assert(short[i] == '#');
    assert forall|k: int| i + 1 <= k < i + 1 + n implies !ends_tag(#[trigger] short[k]) by {
        assert(short[k] == tag[k - i - 1]);
    }
    lemma_tag_runs(short, i + 1, i + 1 + n);
    assert(short.subrange(i + 1, i + 1 + n) =~= tag);
    if i > 0 {
        assert(short[i - 1] == a.last());
    }
    assert(tags_from(short, i, none) == tags_from(short, i + 1 + n, one));
    let long = a + seq!['#'] + tag + seq![blank] + b;
    let tail = seq!['#'] + tag + seq![blank] + b;
    assert(long =~= a + tail);
    lemma_tags_skip(a, tail, 0, none);
    assert(long[i] == '#');
    assert forall|k: int| i + 1 <= k < i + 1 + n implies !ends_tag(#[trigger] long[k]) by {
        assert(long[k] == tag[k - i - 1]);
    }
    assert(long[i + 1 + n] == blank);
    lemma_tag_runs(long, i + 1, i + 1 + n);
    assert(long.subrange(i + 1, i + 1 + n) =~= tag);
    if i > 0 {
        assert(long[i - 1] == a.last());
    }
    assert(tags_from(long, i, none) == tags_from(long, i + 1 + n, one));
    assert(tags_from(long, i + 1 + n, one) == tags_from(long, i + 2 + n, one));
    let p = short + seq![blank];
    assert(long =~= p + b);
    assert(p.last() == blank);
    lemma_tags_move(p, b, 0, one);
    lemma_tags_on_top(b, 0, one, x);
}

/// The tags of a note are those of all its lines but the ones in blocks of code and their fences.
pub proof fn law_tags_of_every_line(list: Seq<Seq<char>>, line: Seq<char>, x: Seq<char>)
    ensures
        ({
            let before = tag_lines(list);
            let after = tag_lines(list.push(line));
            let fence = starts_with(trim_start(line), "```"@);
            &&& after.in_code == (before.in_code != fence)
            &&& holds(after.tags, x) <==> holds(before.tags, x) || (!fence && !before.in_code && holds(
                tags_from(line, 0, Seq::empty()),
                x,
            ))
        }),
        !tag_lines(Seq::empty()).in_code,
        tag_lines(Seq::empty()).tags.len() == 0,
{
    assert(list.push(line).drop_last() =~= list);
    assert(list.push(line).last() == line);
    lemma_tags_on_top(line, 0, tag_lines(list).tags, x);
}

// ---------------------------------------------------------------------------------------------
// Links between notes
// ---------------------------------------------------------------------------------------------
proof fn lemma_titled(notes: Seq<TitledNote>, title: Seq<char>, i: int, t: int)
    requires
        0 <= i <= t < notes.len(),
        notes[t].title@ == title,
        forall|j: int| i <= j < t ==> (#[trigger] notes[j]).title@ != title,
    ensures
        titled_from(notes, title, i) == Some(notes[t].id@),
    decreases t - i,
{
    if i < t {
        assert(notes[i].title@ != title);
        lemma_titled(notes, title, i + 1, t);
    }
}

proof fn lemma_linked_stays(
    links: Seq<StoredLinkModel>,
    l: StoredLinkModel,
    source: Seq<char>,
    target: Seq<char>,
)
    requires
        is_linked(links, source, target) || (l.source_id == source && l.target_id == target),
    ensures
        is_linked(links.push(l), source, target),
{
    let r = links.push(l);
    assert(r[links.len() as int] == l);
    if is_linked(links, source, target) {
        let k = choose|k: int|
            0 <= k < links.len() && (#[trigger] links[k]).source_id == source && links[k].target_id
                == target;
        assert(r[k] == links[k]);
    }
}

/// Each title that a note names, and that another note has, makes a link to the first note with it, and
/// what was linked before stays linked.
pub proof fn law_every_named_note_is_linked(
    links: Seq<StoredLinkModel>,
    notes: Seq<TitledNote>,
    source: Seq<char>,
    targets: Seq<Seq<char>>,
    k: int,
    t: int,
    a: Seq<char>,
    b: Seq<char>,
)
    requires
        0 <= k < targets.len(),
        0 <= t < notes.len(),
        notes[t].title@ == targets[k],
        forall|j: int| 0 <= j < t ==> (#[trigger] notes[j]).title@ != targets[k],
    ensures
        is_linked(links_added(links, notes, source, targets), source, notes[t].id@),
        is_linked(links, a, b) ==> is_linked(links_added(links, notes, source, targets), a, b),
    decreases targets.len(),
{
    let shorter = targets.drop_last();
    let before = links_added(links, notes, source, shorter);
    lemma_titled(notes, targets[k], 0, t);
    lemma_kept_linked(links, notes, source, targets, a, b);
    if k < targets.len() - 1 {
        assert(shorter[k] == targets[k]);
        law_every_named_note_is_linked(links, notes, source, shorter, k, t, a, b);
    }
    if let Some(id) = titled_from(notes, targets.last(), 0) {
        let l = StoredLinkModel { source_id: source, target_id: id, context: targets.last() };
        if k < targets.len() - 1 || id == notes[t].id@ {
            if is_linked(before, source, notes[t].id@) || id == notes[t].id@ {
                lemma_linked_stays(before, l, source, notes[t].id@);
            }
        }
    }
}

proof fn lemma_kept_linked(
    links: Seq<StoredLinkModel>,
    notes: Seq<TitledNote>,
    source: Seq<char>,
    targets: Seq<Seq<char>>,
    a: Seq<char>,
    b: Seq<char>,
)
    ensures
        is_linked(links, a, b) ==> is_linked(links_added(links, notes, source, targets), a, b),
    decreases targets.len(),
{
    if targets.len() > 0 && is_linked(links, a, b) {
        let before = links_added(links, notes, source, targets.drop_last());
        lemma_kept_linked(links, notes, source, targets.drop_last(), a, b);
        if let Some(id) = titled_from(notes, targets.last(), 0) {
            let l = StoredLinkModel { source_id: source, target_id: id, context: targets.last() };
            lemma_linked_stays(before, l, a, b);
        }
    }
}

/// When the links of a note are made anew, just its own old links go.
pub proof fn law_only_own_links_go(links: Seq<StoredLinkModel>, source: Seq<char>)
    ensures
        links_of_others(links, source) == links.filter(
            |l: StoredLinkModel| l.source_id != source,
        ),
    decreases links.len(),
{
    reveal(Seq::filter);
    if links.len() > 0 {
        law_only_own_links_go(links.drop_last(), source);
    }
}

/// The notes that link to a note are, link by link, those of the links to it whose note is in the vault,
/// in their order, each with the words of the link.
pub proof fn law_every_backlink_is_listed(
    notes: Seq<Note>,
    a: Seq<StoredLinkModel>,
    b: Seq<StoredLinkModel>,
    l: StoredLinkModel,
    k: int,
    target: Seq<char>,
    vault: Seq<char>,
)
    requires
        0 <= k < notes.len(),
        notes[k].id@ == l.source_id,
        forall|j: int| 0 <= j < k ==> (#[trigger] notes[j]).id@ != l.source_id,
    ensures
        backlinks(notes, a + b, target, vault) == backlinks(notes, a, target, vault) + backlinks(
            notes,
            b,
            target,
            vault,
        ),
        l.target_id == target && notes[k].vault_id@ == vault ==> backlinks(
            notes,
            seq![l],
            target,
            vault,
        ) == seq![BacklinkModel { note: k, context: l.context }],
        l.target_id != target || notes[k].vault_id@ != vault ==> backlinks(
            notes,
            seq![l],
            target,
            vault,
        ).len() == 0,
    decreases b.len(),
{
    crate::table::law_first_place(notes, with_id(l.source_id), 0);
    let none = Seq::<StoredLinkModel>::empty();
    assert(backlinks(notes, none, target, vault) =~= Seq::empty());
    assert(seq![l].drop_last() =~= none);
    assert(seq![l].last() == l);
    assert(with_id(l.source_id)(notes[k]));
    assert(first_place(notes, with_id(l.source_id), 0) == Some(k)) by {
        if let Some(f) = first_place(notes, with_id(l.source_id), 0) {
            assert(with_id(l.source_id)(notes[f]));
            if f < k {
                assert(notes[f].id@ != l.source_id);
            }
        }
    }
    if b.len() == 0 {
        assert(a + b =~= a);
        assert(backlinks(notes, a, target, vault) + backlinks(notes, b, target, vault) =~= backlinks(
            notes,
            a,
            target,
            vault,
        ));
    } else {
        law_every_backlink_is_listed(notes, a, b.drop_last(), l, k, target, vault);
        assert((a + b).drop_last() =~= a + b.drop_last());
        assert((a + b).last() == b.last());
    }
}

// ---------------------------------------------------------------------------------------------
// Snippets
// ---------------------------------------------------------------------------------------------
/// The match for which a snippet is cut stands in it, with what stands around it in the text.
pub proof fn law_snippet_shows_the_match(plain: Seq<char>, k: int, len: int, max_len: int)
    requires
        0 <= k,
        0 <= len,
        k + len <= plain.len(),
        0 <= max_len,
    ensures
        ({
            let pos = byte_len(plain.take(k)) as int;
            let match_len = byte_len(plain.take(k + len)) - pos;
            let s = snippet_of(plain, pos, match_len, max_len);
            exists|i: int|
                0 <= i && i + len <= s.len() && #[trigger] s.subrange(i, i + len) == plain.subrange(
                    k,
                    k + len,
                )
        }),
{
    let pos = byte_len(plain.take(k)) as int;
    let match_len = byte_len(plain.take(k + len)) - pos;
    law_snippet_covers_match(plain, k, len, max_len);
    let a = snippet_start(plain, pos);
    let b = snippet_end(plain, pos, match_len, max_len);
    let s = snippet_of(plain, pos, match_len, max_len);
    lemma_bytes_rise(plain, k, k + len);
    law_as_much_as_fits(plain, less(pos, 40));
    let start = boundary(plain, less(pos, 40));
    law_as_much_as_fits(plain, greater(start + max_len, pos + match_len));
    let i: int = if a > 0 {
        1 + k - a
    } else {
        k
    };
    assert(s.subrange(i, i + len) =~= plain.subrange(k, k + len));
}

proof fn lemma_bytes_rise(s: Seq<char>, i: int, j: int)
    requires
        0 <= i <= j <= s.len(),
    ensures
        byte_len(s.take(i)) <= byte_len(s.take(j)),
    decreases j - i,
{
    if i < j {
        lemma_bytes_rise(s, i, j - 1);
        assert(s.take(j).drop_last() =~= s.take(j - 1));
    }
}

} // verus!
