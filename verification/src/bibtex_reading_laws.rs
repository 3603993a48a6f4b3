//! Reading BibTeX finds every entry of a text and every field of an entry, in whichever form the values
//! are written.
use vstd::prelude::*;
use vstd::string::*;

use crate::bibtex::{
    bibtex_entries, brace_close, entries_from, entry_at, fields_from, in_run, is_blank, is_name,
    lemma_brace_close, lemma_quote_close, lemma_run_end, quote_close, run_end, value_at, EntryModel, Run,
};
use crate::text::{is_space, lower, trim};
use crate::text_laws::lemma_trim_same;

verus! {

// ---------------------------------------------------------------------------------------------
// Reading does not depend on what stands before
// ---------------------------------------------------------------------------------------------
proof fn lemma_run_moves(pre: Seq<char>, s: Seq<char>, run: Run, i: int)
    requires
        0 <= i <= s.len(),
    ensures
        run_end(pre + s, run, pre.len() + i) == pre.len() + run_end(s, run, i),
    decreases s.len() - i,
{
    if i < s.len() {
        assert((pre + s)[pre.len() + i] == s[i]);
        if in_run(run, s[i]) {
            lemma_run_moves(pre, s, run, i + 1);
        }
    }
}

proof fn lemma_brace_moves(pre: Seq<char>, s: Seq<char>, i: int, depth: int)
    requires
        0 <= i,
    ensures
        brace_close(pre + s, pre.len() + i, depth) == pre.len() + brace_close(s, i, depth),
    decreases s.len() - i + 1,
{
    if i < s.len() {
        assert((pre + s)[pre.len() + i] == s[i]);
        lemma_brace_moves(pre, s, i + 2, depth);
        lemma_brace_moves(pre, s, i + 1, depth + 1);
        lemma_brace_moves(pre, s, i + 1, depth - 1);
        lemma_brace_moves(pre, s, i + 1, depth);
    }
}

proof fn lemma_quote_moves(pre: Seq<char>, s: Seq<char>, i: int)
    requires
        0 <= i,
    ensures
        quote_close(pre + s, pre.len() + i) == pre.len() + quote_close(s, i),
    decreases s.len() - i + 1,
{
    if i < s.len() {
        assert((pre + s)[pre.len() + i] == s[i]);
        lemma_quote_moves(pre, s, i + 2);
        lemma_quote_moves(pre, s, i + 1);
    }
}

proof fn lemma_part_moves(pre: Seq<char>, s: Seq<char>, i: int, j: int)
    requires
        0 <= i <= j <= s.len(),
    ensures
        (pre + s).subrange(pre.len() + i, pre.len() + j) == s.subrange(i, j),
{
    assert((pre + s).subrange(pre.len() + i, pre.len() + j) =~= s.subrange(i, j));
}

proof fn lemma_value_moves(pre: Seq<char>, s: Seq<char>, i: int)
    requires
        0 <= i < s.len(),
    ensures
        value_at(pre + s, pre.len() + i).0 == value_at(s, i).0,
        value_at(pre + s, pre.len() + i).1 == pre.len() + value_at(s, i).1,
        i <= value_at(s, i).1 <= s.len(),
{
    assert((pre + s)[pre.len() + i] == s[i]);
    lemma_brace_moves(pre, s, i + 1, 1);
    lemma_quote_moves(pre, s, i + 1);
    lemma_run_moves(pre, s, Run::Bare, i);
    lemma_brace_close(s, i + 1, 1);
    lemma_quote_close(s, i + 1);
    lemma_run_end(s, Run::Bare, i);
    if s[i] == '{' {
        lemma_part_moves(pre, s, i + 1, brace_close(s, i + 1, 1));
    } else if s[i] == '"' {
        lemma_part_moves(pre, s, i + 1, quote_close(s, i + 1));
    } else {
        lemma_part_moves(pre, s, i, run_end(s, Run::Bare, i));
    }
}

proof fn lemma_fields_move(
    pre: Seq<char>,
    s: Seq<char>,
    i: int,
    close: char,
    acc: Map<Seq<char>, Seq<char>>,
)
    requires
        0 <= i <= s.len(),
    ensures
        fields_from(pre + s, pre.len() + i, close, acc).0 == fields_from(s, i, close, acc).0,
        fields_from(pre + s, pre.len() + i, close, acc).1 == pre.len() + fields_from(
            s,
            i,
            close,
            acc,
        ).1,
        i <= fields_from(s, i, close, acc).1 <= s.len(),
    decreases s.len() - i,
{
    let p = pre.len() as int;
    let all = pre + s;
    let k = run_end(s, Run::Between, i);
    lemma_run_moves(pre, s, Run::Between, i);
    lemma_run_end(s, Run::Between, i);
    if k < s.len() {
        assert(all[p + k] == s[k]);
        if s[k] == close {
        } else if s[k] == '}' || s[k] == ')' {
            lemma_fields_move(pre, s, k + 1, close, acc);
        } else {
            let e = run_end(s, Run::Name, k);
            lemma_run_moves(pre, s, Run::Name, k);
            lemma_run_end(s, Run::Name, k);
            let v = run_end(s, Run::Equals, e);
            lemma_run_moves(pre, s, Run::Equals, e);
            lemma_run_end(s, Run::Equals, e);
            lemma_part_moves(pre, s, k, e);
            if v < s.len() {
                lemma_value_moves(pre, s, v);
                let (value, next) = value_at(s, v);
                let key = lower(s.subrange(k, e));
                let fields = if key.len() > 0 {
                    acc.insert(key, trim(value))
                } else {
                    acc
                };
                if i < next {
                    lemma_fields_move(pre, s, next, close, fields);
                }
            }
        }
    }
}

proof fn lemma_entry_moves(pre: Seq<char>, s: Seq<char>, i: int)
    requires
        0 <= i <= s.len(),
    ensures
        entry_at(pre + s, pre.len() + i).0 == entry_at(s, i).0,
        entry_at(pre + s, pre.len() + i).1 == pre.len() + entry_at(s, i).1,
        i <= entry_at(s, i).1 <= s.len(),
{
    let p = pre.len() as int;
    let all = pre + s;
    let t = run_end(s, Run::Name, i);
    lemma_run_moves(pre, s, Run::Name, i);
    lemma_run_end(s, Run::Name, i);
    let b = run_end(s, Run::Blank, t);
    lemma_run_moves(pre, s, Run::Blank, t);
    lemma_run_end(s, Run::Blank, t);
    if b < s.len() {
        assert(all[p + b] == s[b]);
        if s[b] == '{' || s[b] == '(' {
            let run = if s[b] == '{' {
                Run::KeyInBraces
            } else {
                Run::KeyInParens
            };
            let close = if s[b] == '{' {
                '}'
            } else {
                ')'
            };
            let k = run_end(s, run, b + 1);
            lemma_run_moves(pre, s, run, b + 1);
            lemma_run_end(s, run, b + 1);
            if k < s.len() {
                assert(all[p + k] == s[k]);
            }
            let f = if k < s.len() && s[k] == ',' {
                k + 1
            } else {
                k
            };
            lemma_fields_move(pre, s, f, close, Map::empty());
            lemma_part_moves(pre, s, i, t);
            lemma_part_moves(pre, s, b + 1, k);
        }
    }
}

proof fn lemma_entries_move(pre: Seq<char>, s: Seq<char>, i: int)
    requires
        0 <= i <= s.len(),
    ensures
        entries_from(pre + s, pre.len() + i) == entries_from(s, i),
    decreases s.len() - i,
{
    if i < s.len() {
        assert((pre + s)[pre.len() + i] == s[i]);
        if s[i] == '%' {
            lemma_run_moves(pre, s, Run::Comment, i);
            lemma_run_end(s, Run::Comment, i);
            let e = run_end(s, Run::Comment, i);
            if i < e {
                lemma_entries_move(pre, s, e);
            }
        } else if s[i] != '@' {
            lemma_entries_move(pre, s, i + 1);
        } else {
            lemma_entry_moves(pre, s, i + 1);
            lemma_entries_move(pre, s, entry_at(s, i + 1).1);
        }
    }
}

/// Text before an entry that neither starts an entry nor a comment is passed over.
pub proof fn law_text_between_entries_is_passed_over(junk: Seq<char>, s: Seq<char>)
    requires
        forall|i: int| 0 <= i < junk.len() ==> #[trigger] junk[i] != '@' && junk[i] != '%',
    ensures
        bibtex_entries(junk + s) == bibtex_entries(s),
{
    lemma_passed_over(junk, s, 0);
    lemma_entries_move(junk, s, 0);
}

proof fn lemma_passed_over(junk: Seq<char>, s: Seq<char>, i: int)
    requires
        forall|i: int| 0 <= i < junk.len() ==> #[trigger] junk[i] != '@' && junk[i] != '%',
        0 <= i <= junk.len(),
    ensures
        entries_from(junk + s, i) == entries_from(junk + s, junk.len() as int),
    decreases junk.len() - i,
{
    if i < junk.len() {
        assert((junk + s)[i] == junk[i]);
        lemma_passed_over(junk, s, i + 1);
    }
}

/// A line that starts with `%` is passed over, whatever stands in it.
pub proof fn law_comments_are_passed_over(line: Seq<char>, s: Seq<char>)
    requires
        forall|i: int| 0 <= i < line.len() ==> #[trigger] line[i] != '\n',
    ensures
        bibtex_entries(seq!['%'] + line + seq!['\n'] + s) == bibtex_entries(s),
{
    let head = seq!['%'] + line;
    let all = head + seq!['\n'] + s;
    let n = head.len() as int;
    assert forall|x: int| 0 <= x < n implies in_run(Run::Comment, #[trigger] all[x]) by {
        assert(all[x] == head[x]);
        if x > 0 {
            assert(head[x] == line[x - 1]);
        }
    }
    assert(all[n] == '\n');
    lemma_run_over(all, Run::Comment, 0, n);
    assert(all[0] == '%');
    assert(entries_from(all, 0) == entries_from(all, n));
    assert(entries_from(all, n) == entries_from(all, n + 1));
    let pre = head + seq!['\n'];
    assert(all =~= pre + s);
    lemma_entries_move(pre, s, 0);
}

// ---------------------------------------------------------------------------------------------
// Fields
// ---------------------------------------------------------------------------------------------
/// The forms of a value.
pub enum Form {
    /// The value alone.
    Bare,
    /// In braces.
    Braced,
    /// In quotes.
    Quoted,
}

/// A field as it is written.
pub struct WrittenField {
    pub key: Seq<char>,
    pub form: Form,
    pub value: Seq<char>,
}

/// A value in one of its forms.
pub open spec fn value_text(form: Form, v: Seq<char>) -> Seq<char> {
    match form {
        Form::Bare => v,
        Form::Braced => seq!['{'] + v + seq!['}'],
        Form::Quoted => seq!['"'] + v + seq!['"'],
    }
}

/// Whether a value can be written in a form, and has no white space at its ends.
pub open spec fn fits_form(form: Form, v: Seq<char>) -> bool {
    &&& v.len() > 0 ==> !is_space(v[0]) && !is_space(v.last())
    &&& match form {
        Form::Bare => v.len() > 0 && v[0] != '{' && v[0] != '"' && v[0] != '=' && !is_blank(v[0])
            && forall|i: int|
            0 <= i < v.len() ==> #[trigger] v[i] != ',' && v[i] != '}' && v[i] != ')',
        Form::Braced => forall|i: int|
            0 <= i < v.len() ==> #[trigger] v[i] != '{' && v[i] != '}' && v[i] != '\\',
        Form::Quoted => forall|i: int|
            0 <= i < v.len() ==> #[trigger] v[i] != '"' && v[i] != '\\',
    }
}

/// Whether a text is a name: letters, digits, `_` and `-`.
pub open spec fn is_name_text(s: Seq<char>) -> bool {
    s.len() > 0 && forall|i: int| 0 <= i < s.len() ==> is_name(#[trigger] s[i])
}

/// Whether a field has a name for its key and a value that can be written in its form.
pub open spec fn is_field(f: WrittenField) -> bool {
    is_name_text(f.key) && fits_form(f.form, f.value)
}

/// A field as it stands in an entry.
pub open spec fn written(f: WrittenField) -> Seq<char> {
    seq![' '] + f.key + seq![' ', '=', ' '] + value_text(f.form, f.value)
}

/// Fields as they stand in an entry, with a comma behind each.
pub open spec fn written_fields(list: Seq<WrittenField>) -> Seq<char>
    decreases list.len(),
{
    if list.len() == 0 {
        Seq::empty()
    } else {
        written(list[0]) + seq![','] + written_fields(list.skip(1))
    }
}

spec fn read_fields(acc: Map<Seq<char>, Seq<char>>, list: Seq<WrittenField>) -> Map<
    Seq<char>,
    Seq<char>,
>
    decreases list.len(),
{
    if list.len() == 0 {
        acc
    } else {
        read_fields(acc.insert(lower(list[0].key), list[0].value), list.skip(1))
    }
}

/// Whether a map holds what fields say: under each key, in lower case, the value of the last field
/// with it, and nothing else.
pub open spec fn holds_fields(m: Map<Seq<char>, Seq<char>>, list: Seq<WrittenField>) -> bool {
    &&& forall|i: int|
        0 <= i < list.len() ==> m.dom().contains(lower((#[trigger] list[i]).key))
    &&& forall|i: int|
        0 <= i < list.len() && (forall|j: int|
            i < j < list.len() ==> lower((#[trigger] list[j]).key) != lower(list[i].key))
            ==> m[lower((#[trigger] list[i]).key)] == list[i].value
    &&& forall|k: Seq<char>| #[trigger]
        m.dom().contains(k) ==> exists|i: int|
            0 <= i < list.len() && lower((#[trigger] list[i]).key) == k
}

spec fn has_key(list: Seq<WrittenField>, k: Seq<char>) -> bool {
    exists|i: int| 0 <= i < list.len() && lower((#[trigger] list[i]).key) == k
}

proof fn lemma_keys(acc: Map<Seq<char>, Seq<char>>, list: Seq<WrittenField>, k: Seq<char>)
    ensures
        read_fields(acc, list).dom().contains(k) == (acc.dom().contains(k) || has_key(list, k)),
        !has_key(list, k) ==> read_fields(acc, list)[k] == acc[k],
    decreases list.len(),
{
    if list.len() > 0 {
        let rest = list.skip(1);
        let more = acc.insert(lower(list[0].key), list[0].value);
        lemma_keys(more, rest, k);
        if has_key(rest, k) {
            let i = choose|i: int| 0 <= i < rest.len() && lower((#[trigger] rest[i]).key) == k;
            assert(lower(list[i + 1].key) == k);
        }
        if has_key(list, k) {
            let i = choose|i: int| 0 <= i < list.len() && lower((#[trigger] list[i]).key) == k;
            if i > 0 {
                assert(rest[i - 1] == list[i]);
            }
        } else {
            assert(lower(list[0].key) != k);
        }
        if lower(list[0].key) == k {
            assert(has_key(list, k));
        }
    }
}

proof fn lemma_last_value(acc: Map<Seq<char>, Seq<char>>, list: Seq<WrittenField>, i: int)
    requires
        0 <= i < list.len(),
        forall|j: int|
            i < j < list.len() ==> lower((#[trigger] list[j]).key) != lower(list[i].key),
    ensures
        read_fields(acc, list)[lower(list[i].key)] == list[i].value,
    decreases list.len(),
{
    let rest = list.skip(1);
    let more = acc.insert(lower(list[0].key), list[0].value);
    if i == 0 {
        let k = lower(list[0].key);
        if has_key(rest, k) {
            let j = choose|j: int| 0 <= j < rest.len() && lower((#[trigger] rest[j]).key) == k;
            assert(rest[j] == list[j + 1]);
        }
        lemma_keys(more, rest, k);
    } else {
        assert(rest[i - 1] == list[i]);
        assert forall|j: int| i - 1 < j < rest.len() implies lower((#[trigger] rest[j]).key)
            != lower(rest[i - 1].key) by {
            assert(rest[j] == list[j + 1]);
        }
        lemma_last_value(more, rest, i - 1);
    }
}

proof fn lemma_read_fields(list: Seq<WrittenField>)
    ensures
        holds_fields(read_fields(Map::empty(), list), list),
{
    let m = read_fields(Map::empty(), list);
    assert forall|i: int| 0 <= i < list.len() implies m.dom().contains(
        lower((#[trigger] list[i]).key),
    ) by {
        assert(has_key(list, lower(list[i].key)));
        lemma_keys(Map::empty(), list, lower(list[i].key));
    }
    assert forall|i: int|
        0 <= i < list.len() && (forall|j: int|
            i < j < list.len() ==> lower((#[trigger] list[j]).key) != lower(list[i].key)) implies
        m[lower((#[trigger] list[i]).key)] == list[i].value by {
        lemma_last_value(Map::empty(), list, i);
    }
    assert forall|k: Seq<char>| #[trigger] m.dom().contains(k) implies exists|i: int|
        0 <= i < list.len() && lower((#[trigger] list[i]).key) == k by {
        lemma_keys(Map::empty(), list, k);
    }
}

proof fn lemma_run_over(s: Seq<char>, run: Run, i: int, j: int)
    requires
        0 <= i <= j <= s.len(),
        forall|x: int| i <= x < j ==> in_run(run, #[trigger] s[x]),
        j < s.len() ==> !in_run(run, s[j]),
    ensures
        run_end(s, run, i) == j,
    decreases j - i,
{
    if i < j {
        assert(in_run(run, s[i]));
        lemma_run_over(s, run, i + 1, j);
    }
}

proof fn lemma_brace_over(s: Seq<char>, i: int, j: int)
    requires
        0 <= i <= j < s.len(),
        forall|x: int|
            i <= x < j ==> #[trigger] s[x] != '\\' && s[x] != '{' && s[x] != '}',
        s[j] == '}',
    ensures
        brace_close(s, i, 1) == j,
    decreases j - i,
{
    if i < j {
        assert(s[i] != '\\');
        lemma_brace_over(s, i + 1, j);
    }
}

proof fn lemma_quote_over(s: Seq<char>, i: int, j: int)
    requires
        0 <= i <= j < s.len(),
        forall|x: int| i <= x < j ==> #[trigger] s[x] != '\\' && s[x] != '"',
        s[j] == '"',
    ensures
        quote_close(s, i) == j,
    decreases j - i,
{
    if i < j {
        assert(s[i] != '\\');
        lemma_quote_over(s, i + 1, j);
    }
}

/// Behind a value that stands at a place, with a comma or the end of the entry behind it.
proof fn lemma_value(s: Seq<char>, v: int, form: Form, value: Seq<char>)
    requires
        fits_form(form, value),
        0 <= v,
        v + value_text(form, value).len() < s.len(),
        s.subrange(v, v + value_text(form, value).len()) == value_text(form, value),
        !in_run(Run::Bare, s[v + value_text(form, value).len()]),
    ensures
        trim(value_at(s, v).0) == value,
        value_at(s, v).1 == v + value_text(form, value).len(),
{
    let t = value_text(form, value);
    let n = value.len() as int;
    assert forall|x: int| 0 <= x < t.len() implies s[v + x] == #[trigger] t[x] by {
        assert(s.subrange(v, v + t.len())[x] == t[x]);
    }
    lemma_trim_same(value);
    match form {
        Form::Bare => {
            assert(s[v] == t[0]);
            assert forall|x: int| v <= x < v + n implies in_run(Run::Bare, #[trigger] s[x]) by {
                assert(s[x] == t[x - v]);
                assert(value[x - v] != ',');
            }
            lemma_run_over(s, Run::Bare, v, v + n);
            assert(s.subrange(v, v + n) =~= value);
        },
        Form::Braced => {
            assert(t[0] == '{' && t[n + 1] == '}');
            assert forall|x: int| v + 1 <= x < v + 1 + n implies #[trigger] s[x] != '\\' && s[x]
                != '{' && s[x] != '}' by {
                assert(s[x] == t[x - v]);
                assert(t[x - v] == value[x - v - 1]);
            }
            assert(s[v] == t[0]);
            assert(s[v + (n + 1)] == t[n + 1]);
            lemma_brace_over(s, v + 1, v + 1 + n);
            assert forall|x: int| 0 <= x < n implies s.subrange(v + 1, v + 1 + n)[x]
                == #[trigger] value[x] by {
                assert(s[v + (x + 1)] == t[x + 1]);
            }
            assert(s.subrange(v + 1, v + 1 + n) =~= value);
        },
        Form::Quoted => {
            assert(t[0] == '"' && t[n + 1] == '"');
            assert forall|x: int| v + 1 <= x < v + 1 + n implies #[trigger] s[x] != '\\' && s[x]
                != '"' by {
                assert(s[x] == t[x - v]);
                assert(t[x - v] == value[x - v - 1]);
            }
            assert(s[v] == t[0]);
            assert(s[v + (n + 1)] == t[n + 1]);
            lemma_quote_over(s, v + 1, v + 1 + n);
            assert forall|x: int| 0 <= x < n implies s.subrange(v + 1, v + 1 + n)[x]
                == #[trigger] value[x] by {
                assert(s[v + (x + 1)] == t[x + 1]);
            }
            assert(s.subrange(v + 1, v + 1 + n) =~= value);
        },
    }
}

/// A field is read, and reading goes on behind it.
proof fn lemma_field(
    pre: Seq<char>,
    f: WrittenField,
    rest: Seq<char>,
    close: char,
    acc: Map<Seq<char>, Seq<char>>,
)
    requires
        is_field(f),
        close == '}' || close == ')',
        rest.len() > 0,
        !in_run(Run::Bare, rest[0]),
    ensures
        ({
            let s = pre + written(f) + rest;
            fields_from(s, pre.len() as int, close, acc) == fields_from(
                s,
                (pre.len() + written(f).len()) as int,
                close,
                acc.insert(lower(f.key), f.value),
            )
        }),
{
    let t = written(f);
    let s = pre + t + rest;
    let p = pre.len() as int;
    let n = f.key.len() as int;
    let vt = value_text(f.form, f.value);
    let k = p + 1;
    let e = k + n;
    let v = e + 3;
    let next = v + vt.len();
    assert(t.len() == n + 4 + vt.len());
    assert forall|x: int| p <= x < p + t.len() implies #[trigger] s[x] == t[x - p] by {}
    assert(t[0] == ' ');
    assert forall|x: int| 0 <= x < n implies t[1 + x] == #[trigger] f.key[x] by {}
    assert(t[1 + n] == ' ' && t[2 + n] == '=' && t[3 + n] == ' ');
    assert forall|x: int| 0 <= x < vt.len() implies t[4 + n + x] == #[trigger] vt[x] by {}
    assert(s[p] == ' ');
    assert(s[k] == f.key[0]);
    assert(is_name(f.key[0]));
    lemma_run_over(s, Run::Between, p, k);
    assert forall|x: int| k <= x < e implies in_run(Run::Name, #[trigger] s[x]) by {
        assert(s[x] == f.key[x - k]);
        assert(is_name(f.key[x - k]));
    }
    assert(s[e] == ' ' && s[e + 1] == '=' && s[e + 2] == ' ');
    lemma_run_over(s, Run::Name, k, e);
    assert(vt.len() > 0);
    assert(s[v] == vt[0]);
    lemma_run_over(s, Run::Equals, e, v);
    assert(s.subrange(v, next) =~= vt);
    assert(s[next] == rest[0]);
    lemma_value(s, v, f.form, f.value);
    assert(s.subrange(k, e) =~= f.key);
    assert(lower(f.key).len() == n);
}

proof fn lemma_fields_skip(s: Seq<char>, i: int, close: char, acc: Map<Seq<char>, Seq<char>>)
    requires
        0 <= i < s.len(),
        in_run(Run::Between, s[i]),
        close == '}' || close == ')',
    ensures
        fields_from(s, i, close, acc) == fields_from(s, i + 1, close, acc),
{
    let k = run_end(s, Run::Between, i);
    assert(k == run_end(s, Run::Between, i + 1));
    lemma_run_end(s, Run::Between, i + 1);
    if k < s.len() && s[k] != '}' && s[k] != ')' {
        let e = run_end(s, Run::Name, k);
        lemma_run_end(s, Run::Name, k);
        let v = run_end(s, Run::Equals, e);
        lemma_run_end(s, Run::Equals, e);
        if v < s.len() {
            let next = value_at(s, v).1;
            if s[v] != '{' && s[v] != '"' {
                lemma_run_end(s, Run::Bare, v);
                if next == i + 1 {
                    assert(v == k);
                    assert(in_run(Run::Bare, s[v]));
                    assert(run_end(s, Run::Bare, v) == run_end(s, Run::Bare, v + 1));
                    lemma_run_end(s, Run::Bare, v + 1);
                }
            } else {
                lemma_brace_close(s, v + 1, 1);
                lemma_quote_close(s, v + 1);
            }
        }
    }
}

/// All fields of a list are read.
proof fn lemma_fields(
    pre: Seq<char>,
    list: Seq<WrittenField>,
    last: Seq<char>,
    close: char,
    acc: Map<Seq<char>, Seq<char>>,
)
    requires
        forall|i: int| 0 <= i < list.len() ==> is_field(#[trigger] list[i]),
        close == '}' || close == ')',
    ensures
        ({
            let s = pre + written_fields(list) + last;
            fields_from(s, pre.len() as int, close, acc) == fields_from(
                s,
                (pre.len() + written_fields(list).len()) as int,
                close,
                read_fields(acc, list),
            )
        }),
    decreases list.len(),
{
    let s = pre + written_fields(list) + last;
    if list.len() > 0 {
        let f = list[0];
        let rest = list.skip(1);
        assert(is_field(list[0]));
        assert forall|i: int| 0 <= i < rest.len() implies is_field(#[trigger] rest[i]) by {
            assert(rest[i] == list[i + 1]);
        }
        let tail = seq![','] + written_fields(rest) + last;
        assert(s =~= pre + written(f) + tail);
        lemma_field(pre, f, tail, close, acc);
        let more = acc.insert(lower(f.key), f.value);
        let at = pre.len() + written(f).len();
        assert(s[at as int] == ',');
        lemma_fields_skip(s, at as int, close, more);
        let longer = pre + written(f) + seq![','];
        assert(s =~= longer + written_fields(rest) + last);
        lemma_fields(longer, rest, last, close, more);
    }
}

// ---------------------------------------------------------------------------------------------
// Entries
// ---------------------------------------------------------------------------------------------
/// An entry as it is written, in braces or in parentheses.
pub open spec fn written_entry(
    kind: Seq<char>,
    cite: Seq<char>,
    in_braces: bool,
    list: Seq<WrittenField>,
) -> Seq<char> {
    seq!['@'] + kind + seq![
        if in_braces {
            '{'
        } else {
            '('
        },
    ] + cite + seq![','] + written_fields(list) + seq![
        if in_braces {
            '}'
        } else {
            ')'
        },
    ]
}

/// Whether a key ends where it should.
pub open spec fn is_cite_key(cite: Seq<char>) -> bool {
    forall|i: int|
        0 <= i < cite.len() ==> #[trigger] cite[i] != ',' && cite[i] != '}' && cite[i] != ')'
}

/// The type and the key of an entry are read, and its fields behind them.
proof fn lemma_head(
    kind: Seq<char>,
    cite: Seq<char>,
    in_braces: bool,
    list: Seq<WrittenField>,
    rest: Seq<char>,
)
    requires
        is_name_text(kind),
        is_cite_key(cite),
    ensures
        ({
            let close = if in_braces {
                '}'
            } else {
                ')'
            };
            let s = written_entry(kind, cite, in_braces, list) + rest;
            let (fields, next) = fields_from(
                s,
                (kind.len() + cite.len() + 3) as int,
                close,
                Map::empty(),
            );
            &&& s[0] == '@'
            &&& entry_at(s, 1) == (
                Some(EntryModel { entry_type: lower(kind), cite_key: trim(cite), fields }),
                next,
            )
        }),
{
    let open = if in_braces {
        '{'
    } else {
        '('
    };
    let close = if in_braces {
        '}'
    } else {
        ')'
    };
    let run = if in_braces {
        Run::KeyInBraces
    } else {
        Run::KeyInParens
    };
    let head = seq!['@'] + kind + seq![open] + cite + seq![','];
    let s = written_entry(kind, cite, in_braces, list) + rest;
    assert(s =~= head + (written_fields(list) + seq![close] + rest));
    let n = kind.len() as int;
    let m = cite.len() as int;
    assert(head.len() == n + m + 3);
    assert forall|x: int| 0 <= x < head.len() implies #[trigger] s[x] == head[x] by {}
    assert(s[0] == '@');
    assert forall|x: int| 0 <= x < n implies head[1 + x] == #[trigger] kind[x] by {}
    assert(head[1 + n] == open);
    assert forall|x: int| 0 <= x < m implies head[2 + n + x] == #[trigger] cite[x] by {}
    assert(head[2 + n + m] == ',');
    assert forall|x: int| 1 <= x < 1 + n implies in_run(Run::Name, #[trigger] s[x]) by {
        assert(s[x] == kind[x - 1]);
        assert(is_name(kind[x - 1]));
    }
    assert(s[1 + n] == open);
    lemma_run_over(s, Run::Name, 1, 1 + n);
    lemma_run_over(s, Run::Blank, 1 + n, 1 + n);
    assert forall|x: int| 2 + n <= x < 2 + n + m implies in_run(run, #[trigger] s[x]) by {
        assert(s[x] == cite[x - 2 - n]);
    }
    assert(s[2 + n + m] == ',');
    lemma_run_over(s, run, 2 + n, 2 + n + m);
    assert(s.subrange(1, 1 + n) =~= kind);
    assert(s.subrange(2 + n, 2 + n + m) =~= cite);
}

/// An entry is read with its type in lower case, its key, and all that its fields say, in whichever
/// form their values are written; and what stands behind it is read as if it stood alone.
pub proof fn law_entry_is_read(
    kind: Seq<char>,
    cite: Seq<char>,
    in_braces: bool,
    list: Seq<WrittenField>,
    rest: Seq<char>,
)
    requires
        is_name_text(kind),
        is_cite_key(cite),
        forall|i: int| 0 <= i < list.len() ==> is_field(#[trigger] list[i]),
    ensures
        ({
            let r = bibtex_entries(written_entry(kind, cite, in_braces, list) + rest);
            &&& r.len() == 1 + bibtex_entries(rest).len()
            &&& r[0].entry_type == lower(kind)
            &&& r[0].cite_key == trim(cite)
            &&& holds_fields(r[0].fields, list)
            &&& r.skip(1) == bibtex_entries(rest)
        }),
{
    let open = if in_braces {
        '{'
    } else {
        '('
    };
    let close = if in_braces {
        '}'
    } else {
        ')'
    };
    let head = seq!['@'] + kind + seq![open] + cite + seq![','];
    let whole = written_entry(kind, cite, in_braces, list);
    let last = seq![close] + rest;
    let s = head + written_fields(list) + last;
    assert(whole + rest =~= s);
    lemma_head(kind, cite, in_braces, list, rest);
    lemma_fields(head, list, last, close, Map::empty());
    let fields = read_fields(Map::empty(), list);
    let end = (head.len() + written_fields(list).len()) as int;
    assert(s[end] == close);
    lemma_run_over(s, Run::Between, end, end);
    assert(fields_from(s, end, close, fields) == (fields, end + 1));
    let e = EntryModel { entry_type: lower(kind), cite_key: trim(cite), fields };
    assert(entry_at(s, 1) == (Some(e), end + 1));
    assert(s =~= whole + rest);
    assert(whole.len() == end + 1);
    lemma_entries_move(whole, rest, 0);
    assert(bibtex_entries(s) == seq![e] + entries_from(s, end + 1));
    assert((seq![e] + bibtex_entries(rest)).skip(1) =~= bibtex_entries(rest));
    lemma_read_fields(list);
}

/// `key = v`, `key = {v}` and `key = "v"` are read as the same field: `v`, under the key in lower case.
pub proof fn law_forms_of_a_value_agree(
    kind: Seq<char>,
    cite: Seq<char>,
    in_braces: bool,
    key: Seq<char>,
    v: Seq<char>,
    form: Form,
)
    requires
        is_name_text(kind),
        is_cite_key(cite),
        is_name_text(key),
        fits_form(form, v),
    ensures
        ({
            let r = bibtex_entries(
                written_entry(kind, cite, in_braces, seq![WrittenField { key, form, value: v }]),
            );
            &&& r.len() == 1
            &&& r[0] == EntryModel {
                entry_type: lower(kind),
                cite_key: trim(cite),
                fields: Map::empty().insert(lower(key), v),
            }
        }),
{
    let f = WrittenField { key, form, value: v };
    let list = seq![f];
    let none = Seq::<char>::empty();
    let text = written_entry(kind, cite, in_braces, list);
    assert(list[0] == f);
    law_entry_is_read(kind, cite, in_braces, list, none);
    assert(text + none =~= text);
    assert(bibtex_entries(none) =~= Seq::empty());
    let m = bibtex_entries(text)[0].fields;
    assert(m.dom().contains(lower(list[0].key)));
    assert(m[lower(list[0].key)] == v);
    assert forall|k: Seq<char>| m.dom().contains(k) implies k == lower(key) by {
        let i = choose|i: int| 0 <= i < list.len() && lower((#[trigger] list[i]).key) == k;
        assert(i == 0);
    }
    assert(m =~= Map::empty().insert(lower(key), v));
}

// ---------------------------------------------------------------------------------------------
// Groups and escapes
// ---------------------------------------------------------------------------------------------
/// Whether a text holds nothing that groups, quotes or escapes.
pub open spec fn is_flat(s: Seq<char>) -> bool {
    forall|i: int|
        0 <= i < s.len() ==> #[trigger] s[i] != '{' && s[i] != '}' && s[i] != '\\' && s[i] != '"'
}

proof fn lemma_brace_flat(s: Seq<char>, i: int, j: int, depth: int)
    requires
        0 <= i <= j <= s.len(),
        forall|x: int|
            i <= x < j ==> #[trigger] s[x] != '\\' && s[x] != '{' && s[x] != '}',
    ensures
        brace_close(s, i, depth) == brace_close(s, j, depth),
    decreases j - i,
{
    if i < j {
        assert(s[i] != '\\');
        lemma_brace_flat(s, i + 1, j, depth);
    }
}

proof fn lemma_quote_flat(s: Seq<char>, i: int, j: int)
    requires
        0 <= i <= j <= s.len(),
        forall|x: int| i <= x < j ==> #[trigger] s[x] != '\\' && s[x] != '"',
    ensures
        quote_close(s, i) == quote_close(s, j),
    decreases j - i,
{
    if i < j {
        assert(s[i] != '\\');
        lemma_quote_flat(s, i + 1, j);
    }
}

/// A group inside a value in braces belongs to the value, and so does an escaped brace; a value ends at
/// the brace that closes it.
pub proof fn law_groups_belong_to_the_value(
    a: Seq<char>,
    b: Seq<char>,
    c: Seq<char>,
    rest: Seq<char>,
)
    requires
        is_flat(a) && is_flat(b) && is_flat(c),
    ensures
        ({
            let v = a + seq!['{'] + b + seq!['}'] + c;
            value_at(seq!['{'] + v + seq!['}'] + rest, 0) == (v, (v.len() + 2) as int)
        }),
        ({
            let v = a + seq!['\\', '}'] + b;
            value_at(seq!['{'] + v + seq!['}'] + rest, 0) == (v, (v.len() + 2) as int)
        }),
{
    let na = a.len() as int;
    let nb = b.len() as int;
    let nc = c.len() as int;
    let v = a + seq!['{'] + b + seq!['}'] + c;
    let s = seq!['{'] + v + seq!['}'] + rest;
    assert forall|x: int| 0 <= x < v.len() implies s[1 + x] == #[trigger] v[x] by {}
    assert(s[0] == '{');
    assert forall|x: int| 1 <= x < 1 + na implies #[trigger] s[x] != '\\' && s[x] != '{' && s[x]
        != '}' by {
        assert(s[x] == a[x - 1]);
    }
    lemma_brace_flat(s, 1, 1 + na, 1);
    assert(s[1 + na] == v[na] && v[na] == '{');
    assert forall|x: int| 2 + na <= x < 2 + na + nb implies #[trigger] s[x] != '\\' && s[x] != '{'
        && s[x] != '}' by {
        assert(s[x] == b[x - 2 - na]);
    }
    lemma_brace_flat(s, 2 + na, 2 + na + nb, 2);
    assert(s[2 + na + nb] == v[1 + na + nb] && v[1 + na + nb] == '}');
    assert forall|x: int| 3 + na + nb <= x < 3 + na + nb + nc implies #[trigger] s[x] != '\\'
        && s[x] != '{' && s[x] != '}' by {
        assert(s[x] == c[x - 3 - na - nb]);
    }
    lemma_brace_flat(s, 3 + na + nb, 3 + na + nb + nc, 1);
    assert(s[3 + na + nb + nc] == '}');
    assert(brace_close(s, 1, 1) == 3 + na + nb + nc);
    assert(s.subrange(1, 3 + na + nb + nc) =~= v);
    let w = a + seq!['\\', '}'] + b;
    let t = seq!['{'] + w + seq!['}'] + rest;
    assert forall|x: int| 0 <= x < w.len() implies t[1 + x] == #[trigger] w[x] by {}
    assert(t[0] == '{');
    assert forall|x: int| 1 <= x < 1 + na implies #[trigger] t[x] != '\\' && t[x] != '{' && t[x]
        != '}' by {
        assert(t[x] == a[x - 1]);
    }
    lemma_brace_flat(t, 1, 1 + na, 1);
    assert(t[1 + na] == w[na] && w[na] == '\\');
    assert forall|x: int| 3 + na <= x < 3 + na + nb implies #[trigger] t[x] != '\\' && t[x] != '{'
        && t[x] != '}' by {
        assert(t[x] == b[x - 3 - na]);
    }
    lemma_brace_flat(t, 3 + na, 3 + na + nb, 1);
    assert(t[3 + na + nb] == '}');
    assert(brace_close(t, 1, 1) == 3 + na + nb);
    assert(t.subrange(1, 3 + na + nb) =~= w);
}

/// A quote behind a backslash belongs to a value in quotes, and so do braces.
pub proof fn law_escaped_quotes_belong_to_the_value(a: Seq<char>, b: Seq<char>, rest: Seq<char>)
    requires
        is_flat(a) && is_flat(b),
    ensures
        ({
            let v = a + seq!['\\', '"'] + b;
            value_at(seq!['"'] + v + seq!['"'] + rest, 0) == (v, (v.len() + 2) as int)
        }),
        ({
            let v = a + seq!['{'] + b;
            value_at(seq!['"'] + v + seq!['"'] + rest, 0) == (v, (v.len() + 2) as int)
        }),
{
    let na = a.len() as int;
    let nb = b.len() as int;
    let v = a + seq!['\\', '"'] + b;
    let s = seq!['"'] + v + seq!['"'] + rest;
    assert forall|x: int| 0 <= x < v.len() implies s[1 + x] == #[trigger] v[x] by {}
    assert(s[0] == '"');
    assert forall|x: int| 1 <= x < 1 + na implies #[trigger] s[x] != '\\' && s[x] != '"' by {
        assert(s[x] == a[x - 1]);
    }
    lemma_quote_flat(s, 1, 1 + na);
    assert(s[1 + na] == v[na] && v[na] == '\\');
    assert forall|x: int| 3 + na <= x < 3 + na + nb implies #[trigger] s[x] != '\\' && s[x]
        != '"' by {
        assert(s[x] == b[x - 3 - na]);
    }
    lemma_quote_flat(s, 3 + na, 3 + na + nb);
    assert(s[3 + na + nb] == '"');
    assert(quote_close(s, 1) == 3 + na + nb);
    assert(s.subrange(1, 3 + na + nb) =~= v);
    let w = a + seq!['{'] + b;
    let t = seq!['"'] + w + seq!['"'] + rest;
    assert forall|x: int| 0 <= x < w.len() implies t[1 + x] == #[trigger] w[x] by {}
    assert(t[0] == '"');
    assert forall|x: int| 1 <= x < 2 + na + nb implies #[trigger] t[x] != '\\' && t[x] != '"' by {
        assert(t[x] == w[x - 1]);
        if x - 1 < na {
            assert(w[x - 1] == a[x - 1]);
        } else if x - 1 > na {
            assert(w[x - 1] == b[x - 2 - na]);
        }
    }
    lemma_quote_flat(t, 1, 2 + na + nb);
    assert(t[2 + na + nb] == '"');
    assert(t.subrange(1, 2 + na + nb) =~= w);
}

} // verus!
