//! Reading BibTeX is the inverse of writing it: an exported entry is read with the fields that it was
//! written with.
use vstd::prelude::*;
use vstd::string::*;

use crate::bibtex::{
    bibtex_entries, brace_close, entries_from, entry_at, fields_from, first_key, in_run, lemma_run_end, lookup,
    run_end, value_at, EntryModel, Run,
};
use crate::citation_export::{
    bib_field, bib_names, bib_value, bibtex_text, bibtex_type_of, year_text,
};
use crate::models::Paper;
use crate::text::{
    decimal, digit_for, is_digit, is_lower, is_space, join, lemma_space_end, lower, opt_text,
    signed_decimal, space_end, trim, without, word_end, words, words_from,
};
use crate::text_laws::lemma_trim_same;

verus! {

// ---------------------------------------------------------------------------------------------
// Values
// ---------------------------------------------------------------------------------------------
/// Whether a text holds no backslash.
pub open spec fn no_backslash(s: Seq<char>) -> bool {
    forall|i: int| 0 <= i < s.len() ==> #[trigger] s[i] != '\\'
}

/// Whether an optional text holds no backslash.
pub open spec fn opt_no_backslash(o: Option<Seq<char>>) -> bool {
    o is Some ==> no_backslash(o->0)
}

/// Whether a value is read as it is written: it holds nothing that groups or escapes, and no white
/// space at its ends.
pub open spec fn is_clean(v: Seq<char>) -> bool {
    &&& forall|i: int|
        0 <= i < v.len() ==> #[trigger] v[i] != '{' && v[i] != '}' && v[i] != '\\'
    &&& v.len() > 0 ==> !is_space(v[0]) && !is_space(v.last())
}

proof fn lemma_without(s: Seq<char>, bad: Seq<char>)
    ensures
        forall|i: int|
            0 <= i < without(s, bad).len() ==> s.contains(#[trigger] without(s, bad)[i])
                && !bad.contains(without(s, bad)[i]),
    decreases s.len(),
{
    if s.len() > 0 {
        let r = without(s, bad);
        let shorter = s.drop_last();
        let before = without(shorter, bad);
        lemma_without(shorter, bad);
        assert forall|i: int| 0 <= i < r.len() implies s.contains(#[trigger] r[i]) && !bad.contains(
            r[i],
        ) by {
            if i < before.len() {
                assert(r[i] == before[i]);
                let k = choose|k: int| 0 <= k < shorter.len() && shorter[k] == before[i];
                assert(s[k] == before[i]);
            } else {
                assert(s[s.len() - 1] == r[i]);
            }
        }
    }
}

proof fn lemma_without_none(s: Seq<char>, bad: Seq<char>)
    requires
        forall|i: int| 0 <= i < s.len() ==> !bad.contains(#[trigger] s[i]),
    ensures
        without(s, bad) == s,
    decreases s.len(),
{
    if s.len() > 0 {
        let shorter = s.drop_last();
        assert forall|i: int| 0 <= i < shorter.len() implies !bad.contains(#[trigger] shorter[i]) by {
            assert(shorter[i] == s[i]);
        }
        lemma_without_none(shorter, bad);
        assert(!bad.contains(s[s.len() - 1]));
        assert(shorter.push(s.last()) =~= s);
    } else {
        assert(s =~= Seq::empty());
    }
}

proof fn lemma_word_end(s: Seq<char>, i: int)
    requires
        0 <= i <= s.len(),
    ensures
        i <= word_end(s, i) <= s.len(),
        forall|j: int| i <= j < word_end(s, i) ==> !is_space(#[trigger] s[j]),
        word_end(s, i) < s.len() ==> is_space(s[word_end(s, i)]),
    decreases s.len() - i,
{
    if i < s.len() && !is_space(s[i]) {
        lemma_word_end(s, i + 1);
    }
}

/// Whether a text is a word of another.
pub open spec fn is_word_of(w: Seq<char>, s: Seq<char>) -> bool {
    w.len() > 0 && forall|i: int|
        0 <= i < w.len() ==> !is_space(#[trigger] w[i]) && s.contains(w[i])
}

proof fn lemma_words(s: Seq<char>, i: int)
    requires
        0 <= i <= s.len(),
    ensures
        forall|k: int|
            0 <= k < words_from(s, i).len() ==> is_word_of(#[trigger] words_from(s, i)[k], s),
    decreases s.len() - i,
{
    let a = space_end(s, i);
    let e = word_end(s, a);
    lemma_space_end(s, i);
    lemma_word_end(s, a);
    if a < s.len() && a < e {
        let rest = words_from(s, e);
        lemma_words(s, e);
        let w = s.subrange(a, e);
        assert forall|j: int| 0 <= j < w.len() implies !is_space(#[trigger] w[j]) && s.contains(
            w[j],
        ) by {
            assert(w[j] == s[a + j]);
        }
        assert forall|k: int| 0 <= k < words_from(s, i).len() implies is_word_of(
            #[trigger] words_from(s, i)[k],
            s,
        ) by {
            if k > 0 {
                assert(words_from(s, i)[k] == rest[k - 1]);
            }
        }
    }
}

proof fn lemma_join_words(parts: Seq<Seq<char>>, s: Seq<char>)
    requires
        parts.len() > 0,
        forall|k: int| 0 <= k < parts.len() ==> is_word_of(#[trigger] parts[k], s),
    ensures
        ({
            let r = join(parts, " "@);
            &&& r.len() > 0 && !is_space(r[0]) && !is_space(r.last())
            &&& forall|i: int| 0 <= i < r.len() ==> #[trigger] r[i] == ' ' || s.contains(r[i])
        }),
    decreases parts.len(),
{
    reveal_strlit(" ");
    assert(is_word_of(parts[0], s));
    if parts.len() > 1 {
        let shorter = parts.drop_last();
        assert forall|k: int| 0 <= k < shorter.len() implies is_word_of(#[trigger] shorter[k], s) by {
            assert(shorter[k] == parts[k]);
        }
        lemma_join_words(shorter, s);
        let before = join(shorter, " "@);
        let w = parts.last();
        assert(is_word_of(parts[parts.len() - 1], s));
        let r = join(parts, " "@);
        assert(r == before + " "@ + w);
        assert(r[0] == before[0]);
        assert(r.last() == w.last());
        assert forall|i: int| 0 <= i < r.len() implies #[trigger] r[i] == ' ' || s.contains(
            r[i],
        ) by {
            if i < before.len() {
                assert(r[i] == before[i]);
            } else if i > before.len() {
                assert(r[i] == w[i - before.len() - 1]);
            }
        }
    }
}

/// What is written of a text without a backslash is read as it is written.
pub proof fn lemma_value_is_clean(s: Seq<char>)
    requires
        no_backslash(s),
    ensures
        is_clean(bib_value(s)),
{
    reveal_strlit("{}");
    let t = without(s, "{}"@);
    lemma_without(s, "{}"@);
    assert("{}"@[0] == '{' && "{}"@[1] == '}');
    lemma_words(t, 0);
    let parts = words(t);
    if parts.len() > 0 {
        lemma_join_words(parts, t);
        let r = join(parts, " "@);
        assert forall|i: int| 0 <= i < r.len() implies #[trigger] r[i] != '{' && r[i] != '}' && r[i]
            != '\\' by {
            if r[i] != ' ' {
                let k = choose|k: int| 0 <= k < t.len() && t[k] == r[i];
                assert(s.contains(t[k]) && !"{}"@.contains(t[k]));
                let m = choose|m: int| 0 <= m < s.len() && s[m] == t[k];
                assert(s[m] != '\\');
            }
        }
    }
}

/// A text without white space and braces is written as it is.
proof fn lemma_value_is_same(s: Seq<char>)
    requires
        s.len() > 0,
        forall|i: int|
            0 <= i < s.len() ==> !is_space(#[trigger] s[i]) && s[i] != '{' && s[i] != '}',
    ensures
        bib_value(s) == s,
{
    reveal_strlit("{}");
    assert forall|i: int| 0 <= i < s.len() implies !"{}"@.contains(#[trigger] s[i]) by {
        if "{}"@.contains(s[i]) {
            let k = choose|k: int| 0 <= k < "{}"@.len() && "{}"@[k] == s[i];
            assert(k == 0 || k == 1);
        }
    }
    lemma_without_none(s, "{}"@);
    lemma_space_end(s, 0);
    assert(space_end(s, 0) == 0);
    lemma_word_end(s, 0);
    if word_end(s, 0) < s.len() {
        assert(!is_space(s[word_end(s, 0)]));
    }
    let n = s.len() as int;
    assert(words_from(s, n) =~= Seq::empty());
    assert(s.subrange(0, n) =~= s);
    assert(words(s) =~= seq![s]);
}

proof fn lemma_decimal_digits(n: nat)
    ensures
        decimal(n).len() > 0,
        forall|i: int| 0 <= i < decimal(n).len() ==> is_digit(#[trigger] decimal(n)[i]),
    decreases n,
{
    if n >= 10 {
        lemma_decimal_digits(n / 10);
        let before = decimal(n / 10);
        assert forall|i: int| 0 <= i < decimal(n).len() implies is_digit(
            #[trigger] decimal(n)[i],
        ) by {
            if i < before.len() {
                assert(decimal(n)[i] == before[i]);
            } else {
                assert(is_digit(digit_for((n % 10) as int)));
            }
        }
    } else {
        assert(is_digit(digit_for(n as int)));
    }
}

/// A year is written as its digits.
proof fn lemma_year(y: i32)
    ensures
        bib_value(signed_decimal(y as int)) == signed_decimal(y as int),
        no_backslash(signed_decimal(y as int)),
        signed_decimal(y as int).len() > 0,
{
    let s = signed_decimal(y as int);
    let n: nat = if y < 0 {
        (-y) as nat
    } else {
        y as nat
    };
    lemma_decimal_digits(n);
    let d = decimal(n);
    assert forall|i: int| 0 <= i < s.len() implies !is_space(#[trigger] s[i]) && s[i] != '{' && s[i]
        != '}' && s[i] != '\\' by {
        if y < 0 {
            if i > 0 {
                assert(s[i] == d[i - 1]);
                assert(is_digit(d[i - 1]));
            }
        } else {
            assert(is_digit(d[i]));
        }
    }
    lemma_value_is_same(s);
}

// ---------------------------------------------------------------------------------------------
// Fields
// ---------------------------------------------------------------------------------------------
/// A field as it is written.
pub struct BibField {
    pub key: Seq<char>,
    pub value: Seq<char>,
}

/// The line of a field.
pub open spec fn field_text(f: BibField) -> Seq<char> {
    "  "@ + f.key + " = {"@ + f.value + "},\n"@
}

/// The lines of fields.
pub open spec fn fields_text(list: Seq<BibField>) -> Seq<char>
    decreases list.len(),
{
    if list.len() == 0 {
        Seq::empty()
    } else {
        field_text(list[0]) + fields_text(list.skip(1))
    }
}

/// Whether a field is read as it is written.
pub open spec fn is_readable(f: BibField) -> bool {
    &&& f.key.len() > 0
    &&& forall|i: int| 0 <= i < f.key.len() ==> is_lower(#[trigger] f.key[i])
    &&& is_clean(f.value)
}

/// Fields with more on top.
pub open spec fn with_fields(
    acc: Map<Seq<char>, Seq<char>>,
    list: Seq<BibField>,
) -> Map<Seq<char>, Seq<char>>
    decreases list.len(),
{
    if list.len() == 0 {
        acc
    } else {
        with_fields(acc.insert(list[0].key, list[0].value), list.skip(1))
    }
}

proof fn lemma_run_over(s: Seq<char>, run: Run, i: int, j: int)
    requires
        0 <= i <= j <= s.len(),
        forall|x: int| i <= x < j ==> in_run(run, #[trigger] s[x]),
        j < s.len() ==> !in_run(run, s[j]),
    ensures
        run_end(s, run, i) == j,
    decreases j - i,
{
    if i < j {
        assert(in_run(run, s[i]));
        lemma_run_over(s, run, i + 1, j);
    }
}

proof fn lemma_brace_over(s: Seq<char>, i: int, j: int)
    requires
        0 <= i <= j < s.len(),
        forall|x: int|
            i <= x < j ==> #[trigger] s[x] != '\\' && s[x] != '{' && s[x] != '}',
        s[j] == '}',
    ensures
        brace_close(s, i, 1) == j,
    decreases j - i,
{
    if i < j {
        assert(s[i] != '\\' && s[i] != '{' && s[i] != '}');
        lemma_brace_over(s, i + 1, j);
    }
}

proof fn lemma_fields_skip(s: Seq<char>, i: int, acc: Map<Seq<char>, Seq<char>>)
    requires
        0 <= i < s.len(),
        in_run(Run::Between, s[i]),
    ensures
        fields_from(s, i, '}', acc) == fields_from(s, i + 1, '}', acc),
{
    let k = run_end(s, Run::Between, i);
    assert(k == run_end(s, Run::Between, i + 1));
    lemma_run_end(s, Run::Between, i + 1);
    if k < s.len() && s[k] != '}' && s[k] != ')' {
        let e = run_end(s, Run::Name, k);
        lemma_run_end(s, Run::Name, k);
        let v = run_end(s, Run::Equals, e);
        lemma_run_end(s, Run::Equals, e);
        if v < s.len() {
            let next = value_at(s, v).1;
            if s[v] != '{' && s[v] != '"' {
                lemma_run_end(s, Run::Bare, v);
                if next == i + 1 {
                    assert(v == k);
                    assert(in_run(Run::Bare, s[v]));
                    assert(run_end(s, Run::Bare, v) == run_end(s, Run::Bare, v + 1));
                    lemma_run_end(s, Run::Bare, v + 1);
                }
            } else {
                crate::bibtex::lemma_brace_close(s, v + 1, 1);
                crate::bibtex::lemma_quote_close(s, v + 1);
            }
        }
    }
}

proof fn lemma_lower_same(s: Seq<char>)
    requires
        forall|i: int| 0 <= i < s.len() ==> is_lower(#[trigger] s[i]),
    ensures
        lower(s) == s,
{
    assert forall|i: int| 0 <= i < s.len() implies #[trigger] lower(s)[i] == s[i] by {
        assert(is_lower(s[i]));
    }
    assert(lower(s) =~= s);
}

proof fn lemma_field_step(
    pre: Seq<char>,
    f: BibField,
    rest: Seq<char>,
    acc: Map<Seq<char>, Seq<char>>,
)
    requires
        is_readable(f),
    ensures
        ({
            let s = pre + field_text(f) + rest;
            fields_from(s, pre.len() as int, '}', acc) == fields_from(
                s,
                (pre.len() + field_text(f).len()) as int,
                '}',
                acc.insert(f.key, f.value),
            )
        }),
{
    reveal_strlit("  ");
    reveal_strlit(" = {");
    reveal_strlit("},\n");
    let t = field_text(f);
    let s = pre + t + rest;
    let p = pre.len() as int;
    let k = p + 2;
    let e = k + f.key.len();
    let v = e + 3;
    let c = v + 1 + f.value.len();
    let n = f.key.len() as int;
    let m = f.value.len() as int;
    assert(t.len() == n + m + 9);
    assert forall|x: int| p <= x < p + t.len() implies #[trigger] s[x] == t[x - p] by {}
    assert(t[0] == ' ' && t[1] == ' ');
    assert forall|x: int| 0 <= x < n implies t[2 + x] == #[trigger] f.key[x] by {}
    assert(t[2 + n] == ' ' && t[3 + n] == '=' && t[4 + n] == ' ' && t[5 + n] == '{');
    assert forall|x: int| 0 <= x < m implies t[6 + n + x] == #[trigger] f.value[x] by {}
    assert(t[6 + n + m] == '}' && t[7 + n + m] == ',' && t[8 + n + m] == '\n');
    assert(s[p] == ' ' && s[p + 1] == ' ');
    assert(s[k] == f.key[0]);
    assert(is_lower(f.key[0]));
    lemma_run_over(s, Run::Between, p, k);
    assert forall|x: int| k <= x < e implies in_run(Run::Name, #[trigger] s[x]) by {
        assert(s[x] == f.key[x - k]);
        assert(is_lower(f.key[x - k]));
    }
    assert(s[e] == ' ');
    lemma_run_over(s, Run::Name, k, e);
    assert(s[e + 1] == '=' && s[e + 2] == ' ' && s[v] == '{');
    lemma_run_over(s, Run::Equals, e, v);
    assert forall|x: int| v + 1 <= x < c implies #[trigger] s[x] != '\\' && s[x] != '{' && s[x]
        != '}' by {
        assert(s[x] == f.value[x - v - 1]);
    }
    assert(s[c] == '}');
    lemma_brace_over(s, v + 1, c);
    assert(s.subrange(v + 1, c) =~= f.value);
    assert(s.subrange(k, e) =~= f.key);
    lemma_lower_same(f.key);
    lemma_trim_same(f.value);
    assert(value_at(s, v) == (f.value, c + 1));
    let more = acc.insert(f.key, f.value);
    assert(fields_from(s, p, '}', acc) == fields_from(s, c + 1, '}', more));
    assert(s[c + 1] == ',' && s[c + 2] == '\n');
    lemma_fields_skip(s, c + 1, more);
    lemma_fields_skip(s, c + 2, more);
}

proof fn lemma_fields(pre: Seq<char>, list: Seq<BibField>, acc: Map<Seq<char>, Seq<char>>)
    requires
        forall|i: int| 0 <= i < list.len() ==> is_readable(#[trigger] list[i]),
    ensures
        ({
            let s = pre + fields_text(list) + "}\n"@;
            fields_from(s, pre.len() as int, '}', acc) == (with_fields(acc, list), s.len() - 1)
        }),
    decreases list.len(),
{
    reveal_strlit("}\n");
    let s = pre + fields_text(list) + "}\n"@;
    if list.len() == 0 {
        let p = pre.len() as int;
        assert(s[p] == '}');
        lemma_run_over(s, Run::Between, p, p);
    } else {
        let f = list[0];
        let rest = list.skip(1);
        assert(is_readable(list[0]));
        assert forall|i: int| 0 <= i < rest.len() implies is_readable(#[trigger] rest[i]) by {
            assert(rest[i] == list[i + 1]);
        }
        let tail = fields_text(rest) + "}\n"@;
        assert(s =~= pre + field_text(f) + tail);
        lemma_field_step(pre, f, tail, acc);
        let longer = pre + field_text(f);
        assert(s =~= longer + fields_text(rest) + "}\n"@);
        lemma_fields(longer, rest, acc.insert(f.key, f.value));
    }
}

proof fn lemma_fields_text_both(a: Seq<BibField>, b: Seq<BibField>)
    ensures
        fields_text(a + b) == fields_text(a) + fields_text(b),
    decreases a.len(),
{
    if a.len() == 0 {
        assert(a + b =~= b);
        assert(fields_text(a) + fields_text(b) =~= fields_text(b));
    } else {
        assert((a + b).skip(1) =~= a.skip(1) + b);
        lemma_fields_text_both(a.skip(1), b);
        assert(field_text(a[0]) + (fields_text(a.skip(1)) + fields_text(b)) =~= (field_text(a[0])
            + fields_text(a.skip(1))) + fields_text(b));
    }
}

proof fn lemma_with_fields_both(
    acc: Map<Seq<char>, Seq<char>>,
    a: Seq<BibField>,
    b: Seq<BibField>,
)
    ensures
        with_fields(acc, a + b) == with_fields(with_fields(acc, a), b),
    decreases a.len(),
{
    if a.len() == 0 {
        assert(a + b =~= b);
    } else {
        assert((a + b).skip(1) =~= a.skip(1) + b);
        lemma_with_fields_both(acc.insert(a[0].key, a[0].value), a.skip(1), b);
    }
}

// ---------------------------------------------------------------------------------------------
// Entries
// ---------------------------------------------------------------------------------------------
proof fn lemma_type(item_type: Option<Seq<char>>)
    ensures
        bibtex_type_of(item_type).len() > 0,
        forall|i: int|
            0 <= i < bibtex_type_of(item_type).len() ==> is_lower(
                #[trigger] bibtex_type_of(item_type)[i],
            ),
{
    reveal_strlit("article");
    reveal_strlit("book");
    reveal_strlit("incollection");
    reveal_strlit("inproceedings");
    reveal_strlit("phdthesis");
    reveal_strlit("techreport");
    reveal_strlit("patent");
    reveal_strlit("misc");
}

/// Whether a key is read as it is written.
pub open spec fn is_readable_key(key: Seq<char>) -> bool {
    trim(key) == key && forall|i: int|
        0 <= i < key.len() ==> #[trigger] key[i] != ',' && key[i] != '}'
}

/// An entry with readable fields is read with its type, its key and its fields.
proof fn lemma_entry(kind: Seq<char>, key: Seq<char>, list: Seq<BibField>)
    requires
        kind.len() > 0,
        forall|i: int| 0 <= i < kind.len() ==> is_lower(#[trigger] kind[i]),
        is_readable_key(key),
        forall|i: int| 0 <= i < list.len() ==> is_readable(#[trigger] list[i]),
    ensures
        bibtex_entries("@"@ + kind + "{"@ + key + ",\n"@ + fields_text(list) + "}\n"@) == seq![
            EntryModel {
                entry_type: kind,
                cite_key: key,
                fields: with_fields(Map::empty(), list),
            },
        ],
{
    reveal_strlit("@");
    reveal_strlit("{");
    reveal_strlit(",\n");
    reveal_strlit("}\n");
    let head = "@"@ + kind + "{"@ + key + ",\n"@;
    let s = head + fields_text(list) + "}\n"@;
    let n = kind.len() as int;
    let m = key.len() as int;
    assert(head.len() == n + m + 4);
    assert forall|x: int| 0 <= x < head.len() implies #[trigger] s[x] == head[x] by {}
    assert(s[0] == '@');
    assert forall|x: int| 0 <= x < n implies head[1 + x] == #[trigger] kind[x] by {}
    assert(head[1 + n] == '{');
    assert forall|x: int| 0 <= x < m implies head[2 + n + x] == #[trigger] key[x] by {}
    assert(head[2 + n + m] == ',' && head[3 + n + m] == '\n');
    assert forall|x: int| 1 <= x < 1 + n implies in_run(Run::Name, #[trigger] s[x]) by {
        assert(s[x] == kind[x - 1]);
        assert(is_lower(kind[x - 1]));
    }
    assert(s[1 + n] == '{');
    lemma_run_over(s, Run::Name, 1, 1 + n);
    lemma_run_over(s, Run::Blank, 1 + n, 1 + n);
    assert forall|x: int| 2 + n <= x < 2 + n + m implies in_run(
        Run::KeyInBraces,
        #[trigger] s[x],
    ) by {
        assert(s[x] == key[x - 2 - n]);
    }
    assert(s[2 + n + m] == ',' && s[3 + n + m] == '\n');
    lemma_run_over(s, Run::KeyInBraces, 2 + n, 2 + n + m);
    assert(s.subrange(1, 1 + n) =~= kind);
    assert(s.subrange(2 + n, 2 + n + m) =~= key);
    lemma_lower_same(kind);
    lemma_fields_skip(s, 3 + n + m, Map::empty());
    lemma_fields(head, list, Map::empty());
    let e = EntryModel { entry_type: kind, cite_key: key, fields: with_fields(Map::empty(), list) };
    let last = s.len() - 1;
    assert(entry_at(s, 1) == (Some(e), last));
    assert(s[last] == '\n');
    assert(entries_from(s, last + 1) =~= Seq::empty());
    assert(entries_from(s, last) =~= Seq::empty());
    assert(entries_from(s, 0) =~= seq![e]);
}

/// The keys of the fields of an exported entry, in their order.
pub open spec fn field_key(i: int) -> Seq<char> {
    if i == 0 {
        "title"@
    } else if i == 1 {
        "author"@
    } else if i == 2 {
        "year"@
    } else if i == 3 {
        "journal"@
    } else if i == 4 {
        "volume"@
    } else if i == 5 {
        "number"@
    } else if i == 6 {
        "pages"@
    } else if i == 7 {
        "doi"@
    } else if i == 8 {
        "url"@
    } else if i == 9 {
        "abstract"@
    } else if i == 10 {
        "keywords"@
    } else if i == 11 {
        "publisher"@
    } else if i == 12 {
        "address"@
    } else if i == 13 {
        "series"@
    } else if i == 14 {
        "edition"@
    } else if i == 15 {
        "isbn"@
    } else if i == 16 {
        "issn"@
    } else {
        "editor"@
    }
}

/// What a paper says in the field with the `i`-th key.
pub open spec fn field_source(
    p: Paper,
    authors: Seq<Seq<char>>,
    editors: Seq<Seq<char>>,
    i: int,
) -> Option<Seq<char>> {
    if i == 0 {
        Some(p.title@)
    } else if i == 1 {
        if authors.len() > 0 {
            Some(join(authors, " and "@))
        } else {
            None
        }
    } else if i == 2 {
        year_text(p.year)
    } else if i == 3 {
        opt_text(p.journal)
    } else if i == 4 {
        opt_text(p.volume)
    } else if i == 5 {
        opt_text(p.issue)
    } else if i == 6 {
        opt_text(p.pages)
    } else if i == 7 {
        opt_text(p.doi)
    } else if i == 8 {
        opt_text(p.url)
    } else if i == 9 {
        opt_text(p.abstract_text)
    } else if i == 10 {
        Some(p.keywords@)
    } else if i == 11 {
        opt_text(p.publisher)
    } else if i == 12 {
        opt_text(p.place)
    } else if i == 13 {
        opt_text(p.series)
    } else if i == 14 {
        opt_text(p.edition)
    } else if i == 15 {
        opt_text(p.isbn)
    } else if i == 16 {
        opt_text(p.issn)
    } else {
        if editors.len() > 0 {
            Some(join(editors, " and "@))
        } else {
            None
        }
    }
}

/// Whether the field with the `i`-th key is written: names always are, and other texts unless they are
/// empty.
pub open spec fn is_written(source: Option<Seq<char>>, i: int) -> bool {
    source is Some && (source->0.len() > 0 || i == 1 || i == 17)
}

/// The first `n` fields that are written of a paper with the given authors and editors.
pub open spec fn exported_fields(
    p: Paper,
    authors: Seq<Seq<char>>,
    editors: Seq<Seq<char>>,
    n: int,
) -> Seq<BibField>
    decreases n,
{
    if n <= 0 {
        Seq::empty()
    } else {
        let source = field_source(p, authors, editors, n - 1);
        let before = exported_fields(p, authors, editors, n - 1);
        if is_written(source, n - 1) {
            before.push(BibField { key: field_key(n - 1), value: bib_value(source->0) })
        } else {
            before
        }
    }
}

/// What a reader finds of a text: what was written, unless nothing is left of it.
pub open spec fn read_back(source: Option<Seq<char>>) -> Option<Seq<char>> {
    match source {
        Some(t) => if bib_value(t).len() > 0 {
            Some(bib_value(t))
        } else {
            None
        },
        None => None,
    }
}

/// A number by which the keys are told apart: their length, their first and their third character.
spec fn mark_of(s: Seq<char>) -> int {
    s.len() * 100000 + s[0] as int * 256 + s[2] as int
}

/// The numbers by which the keys are told apart.
spec fn key_mark(i: int) -> int {
    if i == 0 {
        529812
    } else if i == 1 {
        624948
    } else if i == 2 {
        431073
    } else if i == 3 {
        727253
    } else if i == 4 {
        630316
    } else if i == 5 {
        628269
    } else if i == 6 {
        528775
    } else if i == 7 {
        325705
    } else if i == 8 {
        330060
    } else if i == 9 {
        824947
    } else if i == 10 {
        827513
    } else if i == 11 {
        928770
    } else if i == 12 {
        724932
    } else if i == 13 {
        629554
    } else if i == 14 {
        725961
    } else if i == 15 {
        426978
    } else if i == 16 {
        426995
    } else {
        625961
    }
}

proof fn lemma_keys()
    ensures
        forall|i: int, j: int|
            0 <= i < j < 18 ==> #[trigger] field_key(i) != #[trigger] field_key(j),
        forall|i: int| 0 <= i < 18 ==> (#[trigger] field_key(i)).len() > 0,
        forall|i: int, k: int|
            0 <= i < 18 && 0 <= k < field_key(i).len() ==> is_lower(#[trigger] field_key(i)[k]),
{
    reveal_strlit("title");
    reveal_strlit("author");
    reveal_strlit("year");
    reveal_strlit("journal");
    reveal_strlit("volume");
    reveal_strlit("number");
    reveal_strlit("pages");
    reveal_strlit("doi");
    reveal_strlit("url");
    reveal_strlit("abstract");
    reveal_strlit("keywords");
    reveal_strlit("publisher");
    reveal_strlit("address");
    reveal_strlit("series");
    reveal_strlit("edition");
    reveal_strlit("isbn");
    reveal_strlit("issn");
    reveal_strlit("editor");
    assert forall|i: int| 0 <= i < 18 implies #[trigger] key_mark(i) == mark_of(field_key(i)) by {}
    assert forall|i: int, j: int| 0 <= i < j < 18 implies #[trigger] field_key(i)
        != #[trigger] field_key(j) by {
        assert(key_mark(i) != key_mark(j));
    }
}

proof fn lemma_fields_text_push(list: Seq<BibField>, f: BibField)
    ensures
        fields_text(list.push(f)) == fields_text(list) + field_text(f),
{
    let one = seq![f];
    assert(list.push(f) =~= list + one);
    lemma_fields_text_both(list, one);
    assert(one.skip(1) =~= Seq::empty());
    assert(fields_text(one.skip(1)) =~= Seq::empty());
    assert(field_text(f) + Seq::<char>::empty() =~= field_text(f));
}

proof fn lemma_text_step(
    head: Seq<char>,
    p: Paper,
    authors: Seq<Seq<char>>,
    editors: Seq<Seq<char>>,
    n: int,
    line: Seq<char>,
)
    requires
        0 <= n < 18,
        line == (if is_written(field_source(p, authors, editors, n), n) {
            "  "@ + field_key(n) + " = {"@ + bib_value(field_source(p, authors, editors, n)->0)
                + "},\n"@
        } else {
            Seq::empty()
        }),
    ensures
        head + fields_text(exported_fields(p, authors, editors, n)) + line == head + fields_text(
            exported_fields(p, authors, editors, n + 1),
        ),
{
    let list = exported_fields(p, authors, editors, n);
    let source = field_source(p, authors, editors, n);
    let f = BibField { key: field_key(n), value: bib_value(source->0) };
    if is_written(source, n) {
        lemma_fields_text_push(list, f);
        assert(head + fields_text(list) + field_text(f) =~= head + (fields_text(list) + field_text(
            f,
        )));
    } else {
        assert(head + fields_text(list) + line =~= head + fields_text(list));
    }
}

proof fn lemma_exported_text(
    p: Paper,
    key: Seq<char>,
    authors: Seq<Seq<char>>,
    editors: Seq<Seq<char>>,
)
    ensures
        bibtex_text(p, key, authors, editors) == "@"@ + bibtex_type_of(opt_text(p.item_type)) + "{"@
            + key + ",\n"@ + fields_text(exported_fields(p, authors, editors, 18)) + "}\n"@,
{
    let h = "@"@ + bibtex_type_of(opt_text(p.item_type)) + "{"@ + key + ",\n"@;
    let a = authors;
    let e = editors;
    assert(fields_text(exported_fields(p, a, e, 0)) =~= Seq::empty());
    assert(h + fields_text(exported_fields(p, a, e, 0)) =~= h);
    lemma_text_step(h, p, a, e, 0, bib_field("title"@, Some(p.title@)));
    lemma_text_step(h, p, a, e, 1, bib_names("author"@, authors));
    lemma_text_step(h, p, a, e, 2, bib_field("year"@, year_text(p.year)));
    lemma_text_step(h, p, a, e, 3, bib_field("journal"@, opt_text(p.journal)));
    lemma_text_step(h, p, a, e, 4, bib_field("volume"@, opt_text(p.volume)));
    lemma_text_step(h, p, a, e, 5, bib_field("number"@, opt_text(p.issue)));
    lemma_text_step(h, p, a, e, 6, bib_field("pages"@, opt_text(p.pages)));
    lemma_text_step(h, p, a, e, 7, bib_field("doi"@, opt_text(p.doi)));
    lemma_text_step(h, p, a, e, 8, bib_field("url"@, opt_text(p.url)));
    lemma_text_step(h, p, a, e, 9, bib_field("abstract"@, opt_text(p.abstract_text)));
    lemma_text_step(h, p, a, e, 10, bib_field("keywords"@, Some(p.keywords@)));
    lemma_text_step(h, p, a, e, 11, bib_field("publisher"@, opt_text(p.publisher)));
    lemma_text_step(h, p, a, e, 12, bib_field("address"@, opt_text(p.place)));
    lemma_text_step(h, p, a, e, 13, bib_field("series"@, opt_text(p.series)));
    lemma_text_step(h, p, a, e, 14, bib_field("edition"@, opt_text(p.edition)));
    lemma_text_step(h, p, a, e, 15, bib_field("isbn"@, opt_text(p.isbn)));
    lemma_text_step(h, p, a, e, 16, bib_field("issn"@, opt_text(p.issn)));
    lemma_text_step(h, p, a, e, 17, bib_names("editor"@, editors));
}

proof fn lemma_with_fields_push(
    acc: Map<Seq<char>, Seq<char>>,
    list: Seq<BibField>,
    f: BibField,
)
    ensures
        with_fields(acc, list.push(f)) == with_fields(acc, list).insert(f.key, f.value),
{
    let one = seq![f];
    assert(list.push(f) =~= list + one);
    lemma_with_fields_both(acc, list, one);
    let m = with_fields(acc, list);
    assert(one.skip(1) =~= Seq::empty());
    assert(with_fields(m.insert(f.key, f.value), one.skip(1)) == m.insert(f.key, f.value));
}

proof fn lemma_exported_map(
    p: Paper,
    authors: Seq<Seq<char>>,
    editors: Seq<Seq<char>>,
    n: int,
)
    requires
        0 <= n <= 18,
    ensures
        ({
            let m = with_fields(Map::empty(), exported_fields(p, authors, editors, n));
            &&& forall|i: int|
                0 <= i < n ==> {
                    let source = field_source(p, authors, editors, i);
                    m.dom().contains(#[trigger] field_key(i)) == is_written(source, i) && (
                    is_written(source, i) ==> m[field_key(i)] == bib_value(source->0))
                }
            &&& forall|i: int| n <= i < 18 ==> !m.dom().contains(#[trigger] field_key(i))
        }),
    decreases n,
{
    lemma_keys();
    if n > 0 {
        lemma_exported_map(p, authors, editors, n - 1);
        let before = exported_fields(p, authors, editors, n - 1);
        let source = field_source(p, authors, editors, n - 1);
        if is_written(source, n - 1) {
            lemma_with_fields_push(
                Map::empty(),
                before,
                BibField { key: field_key(n - 1), value: bib_value(source->0) },
            );
        }
    }
}

proof fn lemma_all_readable(
    p: Paper,
    authors: Seq<Seq<char>>,
    editors: Seq<Seq<char>>,
    n: int,
)
    requires
        0 <= n <= 18,
        forall|i: int|
            0 <= i < 18 ==> opt_no_backslash(#[trigger] field_source(p, authors, editors, i)),
    ensures
        forall|k: int|
            0 <= k < exported_fields(p, authors, editors, n).len() ==> is_readable(
                #[trigger] exported_fields(p, authors, editors, n)[k],
            ),
    decreases n,
{
    if n > 0 {
        lemma_all_readable(p, authors, editors, n - 1);
        lemma_keys();
        let before = exported_fields(p, authors, editors, n - 1);
        let all = exported_fields(p, authors, editors, n);
        let source = field_source(p, authors, editors, n - 1);
        assert forall|k: int| 0 <= k < all.len() implies is_readable(#[trigger] all[k]) by {
            if k < before.len() {
                assert(all[k] == before[k]);
            } else {
                assert(opt_no_backslash(source));
                lemma_value_is_clean(source->0);
                assert(all[k].key == field_key(n - 1));
            }
        }
    }
}

proof fn lemma_empty_value()
    ensures
        bib_value(Seq::empty()).len() == 0,
{
    let none: Seq<char> = Seq::empty();
    assert(without(none, "{}"@) =~= none);
    assert(words(none) =~= Seq::empty());
}

/// An exported entry is read back: it is one entry with the type and the key that it was written with,
/// and each field says what was written of the paper, where something is left of it. This holds of a
/// key that ends where it should, and of texts without a backslash, which would keep the character
/// behind it from counting.
pub proof fn law_export_is_read_back(
    p: Paper,
    key: Seq<char>,
    authors: Seq<Seq<char>>,
    editors: Seq<Seq<char>>,
)
    requires
        is_readable_key(key),
        forall|i: int|
            0 <= i < 18 ==> opt_no_backslash(#[trigger] field_source(p, authors, editors, i)),
    ensures
        ({
            let entries = bibtex_entries(bibtex_text(p, key, authors, editors));
            let e = entries[0];
            &&& entries.len() == 1
            &&& e.entry_type == bibtex_type_of(opt_text(p.item_type))
            &&& e.cite_key == key
            &&& forall|i: int|
                0 <= i < 18 ==> lookup(e.fields, seq![#[trigger] field_key(i)]) == read_back(
                    field_source(p, authors, editors, i),
                )
            &&& lookup(e.fields, seq!["title"@]) == read_back(Some(p.title@))
            &&& lookup(e.fields, seq!["year"@]) == year_text(p.year)
            &&& lookup(e.fields, seq!["doi"@]) == read_back(opt_text(p.doi))
        }),
{
    let list = exported_fields(p, authors, editors, 18);
    let kind = bibtex_type_of(opt_text(p.item_type));
    lemma_exported_text(p, key, authors, editors);
    lemma_type(opt_text(p.item_type));
    lemma_all_readable(p, authors, editors, 18);
    lemma_entry(kind, key, list);
    lemma_exported_map(p, authors, editors, 18);
    lemma_empty_value();
    let m = with_fields(Map::empty(), list);
    assert forall|i: int| 0 <= i < 18 implies lookup(m, seq![#[trigger] field_key(i)]) == read_back(
        field_source(p, authors, editors, i),
    ) by {
        let k = field_key(i);
        let source = field_source(p, authors, editors, i);
        let keys = seq![k];
        assert(keys[0] == k);
        assert(keys.skip(1) =~= Seq::empty());
        assert(first_key(m, keys.skip(1)) is None);
        if source is Some && !is_written(source, i) {
            assert(source->0 =~= Seq::empty());
        }
    }
    assert(lookup(m, seq![field_key(0)]) == read_back(Some(p.title@)));
    assert(lookup(m, seq![field_key(7)]) == read_back(opt_text(p.doi)));
    assert(lookup(m, seq![field_key(2)]) == read_back(year_text(p.year)));
    if let Some(y) = p.year {
        lemma_year(y);
    }
}

} // verus!
