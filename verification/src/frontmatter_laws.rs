//! What is written into a Markdown file is read back from it.
use vstd::prelude::*;
use vstd::string::*;

use crate::text::{
    find_from, is_space, join, lemma_find_from, lines, lines_of_pieces, lower, matches_at, run_back,
    run_of, space_end, space_start, split, split_from, split_once, starts_with, strip_both,
    strip_prefix, trim, without_return,
};
use crate::vault_service::{
    body_of, front_field, front_item, front_line, front_lines, front_list, front_list_items,
    front_of, front_split, front_start, front_value, markdown, FrontModel, FrontState,
};

verus! {

// ---------------------------------------------------------------------------------------------
// Lines
// ---------------------------------------------------------------------------------------------
/// Whether a text holds no line feed.
pub open spec fn one_line(s: Seq<char>) -> bool {
    forall|i: int| 0 <= i < s.len() ==> #[trigger] s[i] != '\n'
}

/// Whether each text of a list holds no line feed.
pub open spec fn all_one_line(list: Seq<Seq<char>>) -> bool {
    forall|i: int| 0 <= i < list.len() ==> one_line(#[trigger] list[i])
}

/// Where the `k`-th text of a list starts when the texts are joined by line feeds.
pub open spec fn line_start(list: Seq<Seq<char>>, k: int) -> int {
    if k <= 0 {
        0
    } else {
        join(list.take(k), "\n"@).len() as int + 1
    }
}

proof fn lemma_join_prefix(list: Seq<Seq<char>>, k: int)
    requires
        0 < k <= list.len(),
    ensures
        join(list.take(k), "\n"@).len() <= join(list, "\n"@).len(),
        join(list, "\n"@).take(join(list.take(k), "\n"@).len() as int) == join(
            list.take(k),
            "\n"@,
        ),
        k < list.len() ==> join(list.take(k), "\n"@).len() < join(list, "\n"@).len() && join(
            list,
            "\n"@,
        )[join(list.take(k), "\n"@).len() as int] == '\n',
    decreases list.len() - k,
{
    reveal_strlit("\n");
    let s = join(list, "\n"@);
    if k == list.len() {
        assert(list.take(k) =~= list);
        assert(s.take(s.len() as int) =~= s);
    } else {
        lemma_join_prefix(list, k + 1);
        let short = join(list.take(k), "\n"@);
        let long = join(list.take(k + 1), "\n"@);
        assert(list.take(k + 1).drop_last() =~= list.take(k));
        assert(list.take(k + 1).last() == list[k]);
        assert(long == short + "\n"@ + list[k]);
        assert(s.take(long.len() as int) == long);
        assert(s[short.len() as int] == s.take(long.len() as int)[short.len() as int]);
        assert(long[short.len() as int] == '\n');
        assert(s.take(short.len() as int) =~= long.take(short.len() as int));
        assert(long.take(short.len() as int) =~= short);
    }
}

/// The `k`-th line stands where it starts, and a line feed or the end behind it.
proof fn lemma_line_at(list: Seq<Seq<char>>, k: int)
    requires
        0 <= k < list.len(),
    ensures
        ({
            let s = join(list, "\n"@);
            let a = line_start(list, k);
            let e = a + list[k].len();
            &&& 0 <= a <= e <= s.len()
            &&& s.subrange(a, e) == list[k]
            &&& k + 1 < list.len() ==> e < s.len() && s[e] == '\n' && line_start(list, k + 1) == e
                + 1
            &&& k + 1 == list.len() ==> e == s.len()
        }),
{
    reveal_strlit("\n");
    let s = join(list, "\n"@);
    let a = line_start(list, k);
    let e = a + list[k].len();
    let long = join(list.take(k + 1), "\n"@);
    lemma_join_prefix(list, k + 1);
    assert(list.take(k + 1).drop_last() =~= list.take(k));
    assert(list.take(k + 1).last() == list[k]);
    if k == 0 {
        assert(long == list[0]);
    } else {
        assert(long == join(list.take(k), "\n"@) + "\n"@ + list[k]);
    }
    assert(long.len() == e);
    assert(long.subrange(a, e) =~= list[k]);
    assert(s.subrange(a, e) =~= s.take(e).subrange(a, e));
    if k + 1 == list.len() {
        assert(list.take(k + 1) =~= list);
    }
}

proof fn lemma_split_lines_from(list: Seq<Seq<char>>, k: int)
    requires
        0 <= k < list.len(),
        all_one_line(list),
    ensures
        split_from(join(list, "\n"@), "\n"@, line_start(list, k)) == list.skip(k),
    decreases list.len() - k,
{
    reveal_strlit("\n");
    let s = join(list, "\n"@);
    let a = line_start(list, k);
    let e = a + list[k].len();
    lemma_line_at(list, k);
    lemma_find_from(s, "\n"@, a);
    assert forall|j: int| a <= j < e implies !#[trigger] matches_at(s, "\n"@, j) by {
        assert(s.subrange(a, e)[j - a] == s[j]);
        assert(list[k][j - a] != '\n');
        if matches_at(s, "\n"@, j) {
            assert(s.subrange(j, j + 1)[0] == s[j]);
        }
    }
    if k + 1 < list.len() {
        assert(matches_at(s, "\n"@, e)) by {
            assert(s.subrange(e, e + 1) =~= "\n"@);
        }
        assert(find_from(s, "\n"@, a) == Some(e));
        lemma_split_lines_from(list, k + 1);
        assert(list.skip(k) =~= seq![list[k]] + list.skip(k + 1));
    } else {
        assert forall|j: int| a <= j implies !#[trigger] matches_at(s, "\n"@, j) by {
            if j >= e {
                assert(j + 1 > s.len());
            }
        }
        assert(find_from(s, "\n"@, a) is None);
        assert(s.skip(a) =~= s.subrange(a, e));
        assert(list.skip(k) =~= seq![list[k]]);
    }
}

/// Lines that are joined are told apart again.
pub proof fn lemma_split_joined_lines(list: Seq<Seq<char>>)
    requires
        list.len() > 0,
        all_one_line(list),
    ensures
        split(join(list, "\n"@), "\n"@) == list,
{
    lemma_split_lines_from(list, 0);
    assert(list.skip(0) =~= list);
}

// ---------------------------------------------------------------------------------------------
// The block
// ---------------------------------------------------------------------------------------------
/// Whether a line may stand in a block: it is one line, not empty, and does not start with a
/// hyphen nor end with a carriage return.
pub open spec fn block_line(s: Seq<char>) -> bool {
    one_line(s) && s.len() > 0 && s[0] != '-' && s.last() != '\r'
}

/// Whether all lines may stand in a block.
pub open spec fn block_lines(list: Seq<Seq<char>>) -> bool {
    forall|i: int| 0 <= i < list.len() ==> block_line(#[trigger] list[i])
}

/// Whether no line feed in a text is followed by a hyphen or by the end.
pub open spec fn no_rule(s: Seq<char>) -> bool {
    forall|i: int| 0 <= i < s.len() && #[trigger] s[i] == '\n' ==> i + 1 < s.len() && s[i + 1] != '-'
}

proof fn lemma_joined_no_rule(list: Seq<Seq<char>>)
    requires
        list.len() > 0,
        block_lines(list),
    ensures
        no_rule(join(list, "\n"@)),
    decreases list.len(),
{
    reveal_strlit("\n");
    let s = join(list, "\n"@);
    if list.len() == 1 {
        assert(block_line(list[0]));
    } else {
        let shorter = list.drop_last();
        assert forall|i: int| 0 <= i < shorter.len() implies block_line(#[trigger] shorter[i]) by {
            assert(shorter[i] == list[i]);
        }
        lemma_joined_no_rule(shorter);
        let a = join(shorter, "\n"@);
        let last = list.last();
        assert(block_line(list[list.len() - 1]));
        assert(s == a + "\n"@ + last);
        assert forall|i: int| 0 <= i < s.len() && #[trigger] s[i] == '\n' implies i + 1 < s.len()
            && s[i + 1] != '-' by {
            if i < a.len() {
                assert(a[i] == '\n');
                assert(s[i + 1] == a[i + 1]);
            } else if i == a.len() {
                assert(s[i + 1] == last[0]);
            } else {
                assert(s[i] == last[i - a.len() - 1]);
            }
        }
    }
}

/// The first rule behind a block without one ends the block.
proof fn lemma_block_ends(block: Seq<char>, rest: Seq<char>)
    requires
        no_rule(block),
    ensures
        split_once(block + "\n---"@ + rest, "\n---"@) == Some((block, rest)),
{
    reveal_strlit("\n---");
    let s = block + "\n---"@ + rest;
    let pat = "\n---"@;
    let n = block.len() as int;
    lemma_find_from(s, pat, 0);
    assert(matches_at(s, pat, n)) by {
        assert(s.subrange(n, n + 4) =~= pat);
    }
    assert forall|j: int| 0 <= j < n implies !#[trigger] matches_at(s, pat, j) by {
        if matches_at(s, pat, j) {
            assert(s.subrange(j, j + 4)[0] == s[j]);
            assert(s.subrange(j, j + 4)[1] == s[j + 1]);
            assert(block[j] == '\n');
            assert(s[j + 1] == block[j + 1]);
        }
    }
    assert(find_from(s, pat, 0) == Some(n));
    assert(s.take(n) =~= block);
    assert(s.skip(n + 4) =~= rest);
}

/// The lines of joined block lines are these lines.
proof fn lemma_lines_of_block(list: Seq<Seq<char>>)
    requires
        list.len() > 0,
        block_lines(list),
    ensures
        lines(join(list, "\n"@)) == list,
{
    assert forall|i: int| 0 <= i < list.len() implies one_line(#[trigger] list[i]) by {
        assert(block_line(list[i]));
    }
    lemma_split_joined_lines(list);
    assert(block_line(list[list.len() - 1]));
    assert forall|i: int| 0 <= i < list.len() implies without_return(#[trigger] list[i])
        == list[i] by {
        assert(block_line(list[i]));
    }
    assert(lines_of_pieces(list) =~= list);
}

/// Lines with a line feed behind each.
pub open spec fn terminated(list: Seq<Seq<char>>) -> Seq<char>
    decreases list.len(),
{
    if list.len() == 0 {
        Seq::empty()
    } else {
        terminated(list.drop_last()) + list.last() + "\n"@
    }
}

proof fn lemma_terminated(list: Seq<Seq<char>>)
    requires
        list.len() > 0,
    ensures
        terminated(list) == join(list, "\n"@) + "\n"@,
    decreases list.len(),
{
    if list.len() == 1 {
        assert(list.drop_last() =~= Seq::empty());
        assert(terminated(list.drop_last()) =~= Seq::empty());
        assert(Seq::<char>::empty() + list[0] + "\n"@ =~= list[0] + "\n"@);
    } else {
        lemma_terminated(list.drop_last());
    }
}

proof fn lemma_terminated_concat(a: Seq<Seq<char>>, b: Seq<Seq<char>>)
    ensures
        terminated(a + b) == terminated(a) + terminated(b),
    decreases b.len(),
{
    if b.len() == 0 {
        assert(a + b =~= a);
        assert(terminated(a) + Seq::<char>::empty() =~= terminated(a));
    } else {
        lemma_terminated_concat(a, b.drop_last());
        assert((a + b).drop_last() =~= a + b.drop_last());
        assert((a + b).last() == b.last());
        let x = terminated(a);
        let y = terminated(b.drop_last());
        assert(x + y + b.last() + "\n"@ =~= x + (y + b.last() + "\n"@));
    }
}

/// The line of an item of a list.
pub open spec fn item_line(item: Seq<char>) -> Seq<char> {
    "  - "@ + item
}

/// The lines of the items of a list.
pub open spec fn item_lines(items: Seq<Seq<char>>) -> Seq<Seq<char>> {
    Seq::new(items.len(), |i: int| item_line(items[i]))
}

/// The lines of a list under its key.
pub open spec fn list_lines(key: Seq<char>, items: Seq<Seq<char>>) -> Seq<Seq<char>> {
    if items.len() == 0 {
        Seq::empty()
    } else {
        seq![key + ":"@] + item_lines(items)
    }
}

proof fn lemma_item_lines(items: Seq<Seq<char>>)
    ensures
        terminated(item_lines(items)) == front_list_items(items),
    decreases items.len(),
{
    if items.len() > 0 {
        lemma_item_lines(items.drop_last());
        assert(item_lines(items).drop_last() =~= item_lines(items.drop_last()));
        let x = front_list_items(items.drop_last());
        assert(x + ("  - "@ + items.last()) + "\n"@ =~= x + "  - "@ + items.last() + "\n"@);
    }
}

proof fn lemma_one_terminated(s: Seq<char>)
    ensures
        terminated(seq![s]) == s + "\n"@,
{
    lemma_terminated(seq![s]);
}

proof fn lemma_list_lines(key: Seq<char>, items: Seq<Seq<char>>)
    ensures
        terminated(list_lines(key, items)) == front_list(key, items),
{
    reveal_strlit(":\n");
    reveal_strlit(":");
    reveal_strlit("\n");
    if items.len() > 0 {
        lemma_item_lines(items);
        lemma_terminated_concat(seq![key + ":"@], item_lines(items));
        lemma_one_terminated(key + ":"@);
        assert(key + ":"@ + "\n"@ =~= key + ":\n"@);
    }
}

/// The lines of the block that a note is written with.
pub open spec fn note_lines(
    created: Seq<char>,
    updated: Seq<char>,
    aliases: Seq<Seq<char>>,
    tags: Seq<Seq<char>>,
) -> Seq<Seq<char>> {
    seq!["created: "@ + created] + seq!["updated: "@ + updated] + list_lines("aliases"@, aliases)
        + list_lines("tags"@, tags)
}

/// A note as it is written: a rule, the block, a rule, and the text behind an empty line.
proof fn lemma_markdown_shape(
    created: Seq<char>,
    updated: Seq<char>,
    aliases: Seq<Seq<char>>,
    tags: Seq<Seq<char>>,
    content: Seq<char>,
)
    ensures
        markdown(created, updated, aliases, tags, content) == "---\n"@ + (join(
            note_lines(created, updated, aliases, tags),
            "\n"@,
        ) + "\n---"@ + ("\n\n"@ + content)),
{
    reveal_strlit("---\n\n");
    reveal_strlit("\n---");
    reveal_strlit("\n\n");
    reveal_strlit("\n");
    let c = seq!["created: "@ + created];
    let u = seq!["updated: "@ + updated];
    let a = list_lines("aliases"@, aliases);
    let g = list_lines("tags"@, tags);
    let all = note_lines(created, updated, aliases, tags);
    lemma_terminated_concat(c, u);
    lemma_terminated_concat(c + u, a);
    lemma_terminated_concat(c + u + a, g);
    lemma_one_terminated("created: "@ + created);
    lemma_one_terminated("updated: "@ + updated);
    lemma_list_lines("aliases"@, aliases);
    lemma_list_lines("tags"@, tags);
    lemma_terminated(all);
    let la = front_list("aliases"@, aliases);
    let lt = front_list("tags"@, tags);
    let block = join(all, "\n"@);
    assert(block + "\n"@ == "created: "@ + created + "\n"@ + ("updated: "@ + updated + "\n"@) + la
        + lt);
    assert(markdown(created, updated, aliases, tags, content) =~= "---\n"@ + ((block + "\n"@)
        + "---\n\n"@ + content));
    assert((block + "\n"@) + "---\n\n"@ + content =~= block + "\n---"@ + ("\n\n"@ + content));
}

// ---------------------------------------------------------------------------------------------
// Values
// ---------------------------------------------------------------------------------------------
/// Whether a character may stand at the end of a value: neither white space nor a quote.
pub open spec fn plain_end(c: char) -> bool {
    !is_space(c) && c != '"' && c != '\''
}

/// Whether a value is written as it is: it is one line, not empty, and has neither white space nor
/// quotes at its ends.
pub open spec fn plain(v: Seq<char>) -> bool {
    one_line(v) && v.len() > 0 && plain_end(v[0]) && plain_end(v.last())
}

/// Whether all values of a list are written as they are.
pub open spec fn all_plain(list: Seq<Seq<char>>) -> bool {
    forall|i: int| 0 <= i < list.len() ==> plain(#[trigger] list[i])
}

/// Trimming drops just the white space in front where the rest has none at its ends.
proof fn lemma_trim_front(pad: Seq<char>, v: Seq<char>)
    requires
        forall|i: int| 0 <= i < pad.len() ==> is_space(#[trigger] pad[i]),
        v.len() > 0,
        !is_space(v[0]),
        !is_space(v.last()),
    ensures
        trim(pad + v) == v,
{
    let s = pad + v;
    lemma_pad_end(pad, v, 0);
    assert(space_end(s, 0) == pad.len());
    assert(s[s.len() - 1] == v.last());
    assert(space_start(s, pad.len() as int, s.len() as int) == s.len());
    assert(s.subrange(pad.len() as int, s.len() as int) =~= v);
}

proof fn lemma_pad_end(pad: Seq<char>, v: Seq<char>, i: int)
    requires
        0 <= i <= pad.len(),
        forall|i: int| 0 <= i < pad.len() ==> is_space(#[trigger] pad[i]),
        v.len() > 0,
        !is_space(v[0]),
    ensures
        space_end(pad + v, i) == pad.len(),
    decreases pad.len() - i,
{
    if i < pad.len() {
        assert((pad + v)[i] == pad[i]);
        lemma_pad_end(pad, v, i + 1);
    } else {
        assert((pad + v)[i] == v[0]);
    }
}

proof fn lemma_strip_both_plain(v: Seq<char>, c: char)
    requires
        v.len() > 0,
        v[0] != c,
        v.last() != c,
    ensures
        strip_both(v, c) == v,
{
    assert(run_of(v, c, 0) == 0);
    assert(run_back(v, c, 0, v.len() as int) == v.len());
    assert(v.subrange(0, v.len() as int) =~= v);
}

/// A plain value is read as it is, with or without a blank in front.
proof fn lemma_plain_value(v: Seq<char>)
    requires
        plain(v),
    ensures
        front_value(" "@ + v) == v,
        strip_both(strip_both(trim(v), '"'), '\'') == v,
{
    reveal_strlit(" ");
    lemma_trim_front(" "@, v);
    lemma_trim_front(Seq::empty(), v);
    assert(Seq::<char>::empty() + v =~= v);
    lemma_strip_both_plain(v, '"');
    lemma_strip_both_plain(v, '\'');
}

/// A text is taken apart at the first colon.
proof fn lemma_split_colon(key: Seq<char>, rest: Seq<char>)
    requires
        forall|i: int| 0 <= i < key.len() ==> #[trigger] key[i] != ':',
    ensures
        split_once(key + ":"@ + rest, ":"@) == Some((key, rest)),
{
    reveal_strlit(":");
    let line = key + ":"@ + rest;
    let n = key.len() as int;
    lemma_find_from(line, ":"@, 0);
    assert(matches_at(line, ":"@, n)) by {
        assert(line.subrange(n, n + 1) =~= ":"@);
    }
    assert forall|j: int| 0 <= j < n implies !#[trigger] matches_at(line, ":"@, j) by {
        if matches_at(line, ":"@, j) {
            assert(line.subrange(j, j + 1)[0] == line[j]);
            assert(line[j] == key[j]);
        }
    }
    assert(find_from(line, ":"@, 0) == Some(n));
    assert(line.take(n) =~= key);
    assert(line.skip(n + 1) =~= rest);
}

/// A line of a key and a colon is trimmed already and is no item.
proof fn lemma_field_trimmed(key: Seq<char>, rest: Seq<char>)
    requires
        key.len() > 0,
        !is_space(key[0]),
        !is_space(key.last()),
        key[0] != '-',
        rest.len() > 0 ==> !is_space(rest.last()),
    ensures
        trim(key + ":"@ + rest) == key + ":"@ + rest,
        trim(key) == key,
        strip_prefix(key + ":"@ + rest, "- "@) is None,
{
    reveal_strlit(":");
    reveal_strlit("- ");
    let line = key + ":"@ + rest;
    assert(line[0] == key[0]);
    assert(line.last() == (if rest.len() > 0 {
        rest.last()
    } else {
        ':'
    }));
    lemma_trim_front(Seq::empty(), line);
    assert(Seq::<char>::empty() + line =~= line);
    lemma_trim_front(Seq::empty(), key);
    assert(Seq::<char>::empty() + key =~= key);
    if starts_with(line, "- "@) {
        assert(line.subrange(0, 2)[0] == line[0]);
        assert("- "@[0] == '-');
    }
}

/// A line of a key, a colon and a value is read as that field.
proof fn lemma_field_line(s: FrontState, key: Seq<char>, rest: Seq<char>)
    requires
        key.len() > 0,
        forall|i: int| 0 <= i < key.len() ==> #[trigger] key[i] != ':',
        !is_space(key[0]),
        !is_space(key.last()),
        key[0] != '-',
        rest.len() > 0 ==> !is_space(rest.last()),
    ensures
        front_line(s, key + ":"@ + rest) == front_field(s, lower(key), front_value(rest)),
{
    lemma_split_colon(key, rest);
    lemma_field_trimmed(key, rest);
}

/// A line of an item is read as that item.
proof fn lemma_read_item(s: FrontState, item: Seq<char>)
    requires
        plain(item),
    ensures
        front_line(s, item_line(item)) == front_item(s, item),
        strip_both(strip_both(trim(item), '"'), '\'') == item,
{
    reveal_strlit("  - ");
    reveal_strlit("- ");
    let pad = seq![' ', ' '];
    let t = "- "@ + item;
    assert(item_line(item) =~= pad + t);
    assert(t.last() == item.last());
    lemma_trim_front(pad, t);
    assert(starts_with(t, "- "@)) by {
        assert(t.subrange(0, 2) =~= "- "@);
    }
    assert(t.skip(2) =~= item);
    lemma_plain_value(item);
}

/// The items of an open list of aliases are read one by one.
proof fn lemma_read_items(before: Seq<Seq<char>>, items: Seq<Seq<char>>)
    requires
        all_plain(items),
    ensures
        ({
            let s = front_lines(before);
            let r = front_lines(before + item_lines(items));
            &&& r.in_aliases == s.in_aliases
            &&& r.in_tags == s.in_tags
            &&& r.said == (FrontModel {
                aliases: if s.in_aliases {
                    s.said.aliases + items
                } else {
                    s.said.aliases
                },
                tags: if s.in_tags {
                    s.said.tags + items
                } else {
                    s.said.tags
                },
                ..s.said
            })
        }),
    decreases items.len(),
{
    let s = front_lines(before);
    let list = before + item_lines(items);
    if items.len() == 0 {
        assert(list =~= before);
        assert(s.said.aliases + items =~= s.said.aliases);
        assert(s.said.tags + items =~= s.said.tags);
    } else {
        let shorter = items.drop_last();
        assert forall|i: int| 0 <= i < shorter.len() implies plain(#[trigger] shorter[i]) by {
            assert(shorter[i] == items[i]);
        }
        lemma_read_items(before, shorter);
        assert(list.drop_last() =~= before + item_lines(shorter));
        assert(list.last() == item_line(items.last()));
        assert(plain(items[items.len() - 1]));
        lemma_read_item(front_lines(list.drop_last()), items.last());
        assert((s.said.aliases + shorter).push(items.last()) =~= s.said.aliases + items);
        assert((s.said.tags + shorter).push(items.last()) =~= s.said.tags + items);
    }
}

proof fn lemma_push_line(list: Seq<Seq<char>>, line: Seq<char>)
    ensures
        front_lines(list + seq![line]) == front_line(front_lines(list), line),
{
    assert((list + seq![line]).drop_last() =~= list);
}

/// The keys are written in lower case.
proof fn lemma_keys()
    ensures
        lower("created"@) == "created"@,
        lower("updated"@) == "updated"@,
        lower("aliases"@) == "aliases"@,
        lower("tags"@) == "tags"@,
        "created: "@ == "created"@ + ":"@ + " "@,
        "updated: "@ == "updated"@ + ":"@ + " "@,
        "created"@ != "updated"@,
        "created"@ != "aliases"@,
        "created"@ != "tags"@,
        "updated"@ != "date"@,
        "updated"@ != "aliases"@,
        "updated"@ != "tags"@,
        "aliases"@ != "tags"@,
        "aliases"@ != "date"@,
        "aliases"@ != "modified"@,
        "tags"@ != "date"@,
        "tags"@ != "modified"@,
{
    reveal_strlit("created");
    reveal_strlit("updated");
    reveal_strlit("aliases");
    reveal_strlit("tags");
    reveal_strlit("date");
    reveal_strlit("modified");
    reveal_strlit(":");
    reveal_strlit(" ");
    reveal_strlit("created: ");
    reveal_strlit("updated: ");
    assert(lower("created"@) =~= "created"@);
    assert(lower("updated"@) =~= "updated"@);
    assert(lower("aliases"@) =~= "aliases"@);
    assert(lower("tags"@) =~= "tags"@);
    assert("created: "@ =~= "created"@ + ":"@ + " "@);
    assert("updated: "@ =~= "updated"@ + ":"@ + " "@);
    assert("created"@[0] == 'c' && "updated"@[0] == 'u' && "aliases"@[0] == 'a' && "tags"@[0] == 't'
        && "date"@[0] == 'd' && "modified"@[0] == 'm');
}

/// A list under its key is read into what was said before.
proof fn lemma_read_list(before: Seq<Seq<char>>, key: Seq<char>, items: Seq<Seq<char>>)
    requires
        key == "aliases"@ || key == "tags"@,
        all_plain(items),
    ensures
        front_lines(before + list_lines(key, items)).said == (FrontModel {
            aliases: if key == "aliases"@ {
                front_lines(before).said.aliases + items
            } else {
                front_lines(before).said.aliases
            },
            tags: if key == "tags"@ {
                front_lines(before).said.tags + items
            } else {
                front_lines(before).said.tags
            },
            ..front_lines(before).said
        }),
{
    lemma_keys();
    let s = front_lines(before);
    if items.len() == 0 {
        assert(before + list_lines(key, items) =~= before);
        assert(s.said.aliases + items =~= s.said.aliases);
        assert(s.said.tags + items =~= s.said.tags);
    } else {
        reveal_strlit("aliases");
        reveal_strlit("tags");
        let head = key + ":"@;
        assert(head =~= key + ":"@ + Seq::<char>::empty());
        lemma_field_line(s, key, Seq::empty());
        lemma_push_line(before, head);
        let opened = before + seq![head];
        assert(front_value(Seq::empty()) =~= Seq::empty());
        assert(s.said.aliases + Seq::<Seq<char>>::empty() =~= s.said.aliases);
        assert(s.said.tags + Seq::<Seq<char>>::empty() =~= s.said.tags);
        lemma_read_items(opened, items);
        assert(before + list_lines(key, items) =~= opened + item_lines(items));
    }
}

proof fn lemma_note_lines_fit(
    created: Seq<char>,
    updated: Seq<char>,
    aliases: Seq<Seq<char>>,
    tags: Seq<Seq<char>>,
)
    requires
        plain(created),
        plain(updated),
        all_plain(aliases),
        all_plain(tags),
    ensures
        block_lines(note_lines(created, updated, aliases, tags)),
{
    reveal_strlit("created: ");
    reveal_strlit("updated: ");
    let c = "created: "@ + created;
    let u = "updated: "@ + updated;
    assert(block_line(c)) by {
        assert(c.last() == created.last());
        assert forall|i: int| 0 <= i < c.len() implies #[trigger] c[i] != '\n' by {
            if i >= 9 {
                assert(c[i] == created[i - 9]);
            }
        }
    }
    assert(block_line(u)) by {
        assert(u.last() == updated.last());
        assert forall|i: int| 0 <= i < u.len() implies #[trigger] u[i] != '\n' by {
            if i >= 9 {
                assert(u[i] == updated[i - 9]);
            }
        }
    }
    lemma_list_lines_fit("aliases"@, aliases);
    lemma_list_lines_fit("tags"@, tags);
    let a = list_lines("aliases"@, aliases);
    let g = list_lines("tags"@, tags);
    let all = note_lines(created, updated, aliases, tags);
    assert forall|i: int| 0 <= i < all.len() implies block_line(#[trigger] all[i]) by {
        if i >= 2 && i < 2 + a.len() {
            assert(all[i] == a[i - 2]);
        } else if i >= 2 + a.len() {
            assert(all[i] == g[i - 2 - a.len()]);
        }
    }
}

proof fn lemma_list_lines_fit(key: Seq<char>, items: Seq<Seq<char>>)
    requires
        key == "aliases"@ || key == "tags"@,
        all_plain(items),
    ensures
        block_lines(list_lines(key, items)),
{
    reveal_strlit("aliases");
    reveal_strlit("tags");
    reveal_strlit(":");
    reveal_strlit("  - ");
    let all = list_lines(key, items);
    assert forall|i: int| 0 <= i < all.len() implies block_line(#[trigger] all[i]) by {
        if i == 0 {
            assert(all[0] == key + ":"@);
            assert(all[0].last() == ':');
        } else {
            let item = items[i - 1];
            assert(plain(item));
            let line = "  - "@ + item;
            assert(all[i] == line);
            assert(line.last() == item.last());
            assert forall|j: int| 0 <= j < line.len() implies #[trigger] line[j] != '\n' by {
                if j >= 4 {
                    assert(line[j] == item[j - 4]);
                }
            }
        }
    }
}

/// A note that is written to a Markdown file is read back from it: its dates, aliases and tags as
/// they were, and its text behind one empty line. The dates, aliases and tags have to be plain.
pub proof fn law_markdown_round_trip(
    created: Seq<char>,
    updated: Seq<char>,
    aliases: Seq<Seq<char>>,
    tags: Seq<Seq<char>>,
    content: Seq<char>,
)
    requires
        plain(created),
        plain(updated),
        all_plain(aliases),
        all_plain(tags),
    ensures
        front_of(markdown(created, updated, aliases, tags, content)) == Some(
            FrontModel { aliases, tags, created_at: Some(created), updated_at: Some(updated) },
        ),
        body_of(markdown(created, updated, aliases, tags, content)) == "\n"@ + content,
{
    let text = markdown(created, updated, aliases, tags, content);
    let all = note_lines(created, updated, aliases, tags);
    let block = join(all, "\n"@);
    let rest = "\n\n"@ + content;
    lemma_markdown_shape(created, updated, aliases, tags, content);
    lemma_note_lines_fit(created, updated, aliases, tags);
    lemma_joined_no_rule(all);
    lemma_block_ends(block, rest);
    lemma_lines_of_block(all);
    assert(front_split(text) == Some((block, "\n"@ + content))) by {
        reveal_strlit("---\n");
        reveal_strlit("\n");
        reveal_strlit("\n\n");
        assert(text.subrange(0, 4) =~= "---\n"@);
        assert(text.skip(4) =~= block + "\n---"@ + rest);
        assert(rest.subrange(0, 1) =~= "\n"@);
        assert(rest.skip(1) =~= "\n"@ + content);
    }
    lemma_note_read(created, updated, aliases, tags);
}

proof fn lemma_note_read(
    created: Seq<char>,
    updated: Seq<char>,
    aliases: Seq<Seq<char>>,
    tags: Seq<Seq<char>>,
)
    requires
        plain(created),
        plain(updated),
        all_plain(aliases),
        all_plain(tags),
    ensures
        front_lines(note_lines(created, updated, aliases, tags)).said == (FrontModel {
            aliases,
            tags,
            created_at: Some(created),
            updated_at: Some(updated),
        }),
{
    lemma_keys();
    let none = Seq::<Seq<char>>::empty();
    let c = "created: "@ + created;
    let u = "updated: "@ + updated;
    let first = seq![c];
    let second = first + seq![u];
    assert(first =~= none + seq![c]);
    lemma_push_line(none, c);
    lemma_push_line(first, u);
    lemma_dated(front_start(), "created"@, created);
    lemma_dated(front_lines(first), "updated"@, updated);
    assert(c =~= "created"@ + ":"@ + (" "@ + created));
    assert(u =~= "updated"@ + ":"@ + (" "@ + updated));
    lemma_read_list(second, "aliases"@, aliases);
    let third = second + list_lines("aliases"@, aliases);
    lemma_read_list(third, "tags"@, tags);
    assert(none + aliases =~= aliases);
    assert(none + tags =~= tags);
}

/// A date is read as it is written.
proof fn lemma_dated(s: FrontState, key: Seq<char>, date: Seq<char>)
    requires
        key == "created"@ || key == "updated"@,
        plain(date),
    ensures
        front_line(s, key + ":"@ + (" "@ + date)) == front_field(s, key, date),
{
    lemma_keys();
    reveal_strlit("created");
    reveal_strlit("updated");
    lemma_plain_value(date);
    assert((" "@ + date).last() == date.last());
    lemma_field_line(s, key, " "@ + date);
}

} // verus!
