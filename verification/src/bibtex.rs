//! Reading BibTeX.
use vstd::prelude::*;
use vstd::string::*;

use crate::pairs::{keys_distinct, lemma_pairs_map, pairs_map, put};
use crate::text::{
    chars_of, contains, is_digit, is_lower, is_upper, join, lemma_find_from, lemma_texts_push, lower,
    matches_at, same, slice, split, split_on, texts, to_lower, trim, trimmed,
};
use crate::text_laws::{lemma_join_first, lemma_split_first, lemma_split_whole, lemma_trim_same};

verus! {

// ---------------------------------------------------------------------------------------------
// Classes of characters
// ---------------------------------------------------------------------------------------------
/// The groups of characters over which the reader runs.
#[derive(Clone, Copy)]
pub enum Run {
    /// The rest of a line.
    Comment,
    /// Letters, digits, `_` and `-`.
    Name,
    /// White space.
    Blank,
    /// White space and commas.
    Between,
    /// White space and equals signs.
    Equals,
    /// A key that ends at a comma or at `}`.
    KeyInBraces,
    /// A key that ends at a comma or at `)`.
    KeyInParens,
    /// A value without delimiters.
    Bare,
}

/// ASCII white space.
pub open spec fn is_blank(b: char) -> bool {
    b == ' ' || b == '\t' || b == '\n' || b == '\u{c}' || b == '\r'
}

/// The characters of a name.
pub open spec fn is_name(b: char) -> bool {
    is_digit(b) || is_upper(b) || is_lower(b) || b == '_' || b
        == '-'
}

/// Whether `b` belongs to a run.
pub open spec fn in_run(run: Run, b: char) -> bool {
    match run {
        Run::Comment => b != '\n',
        Run::Name => is_name(b),
        Run::Blank => is_blank(b),
        Run::Between => is_blank(b) || b == ',',
        Run::Equals => is_blank(b) || b == '=',
        Run::KeyInBraces => b != ',' && b != '}',
        Run::KeyInParens => b != ',' && b != ')',
        Run::Bare => b != ',' && b != '}' && b != ')',
    }
}

/// The first position from `i` on that does not belong to the run.
pub open spec fn run_end(s: Seq<char>, run: Run, i: int) -> int
    decreases s.len() - i,
{
    if 0 <= i < s.len() && in_run(run, s[i]) {
        run_end(s, run, i + 1)
    } else {
        i
    }
}

/// Tells whether `b` belongs to a run.
fn belongs(run: Run, b: char) -> (r: bool)
    ensures
        r == in_run(run, b),
{
    let blank = b == ' ' || b == '\t' || b == '\n' || b == '\u{c}' || b == '\r';
    match run {
        Run::Comment => b != '\n',
        Run::Name => ('0' <= b && b <= '9') || ('A' <= b && b <= 'Z') || ('a' <= b && b <= 'z') || b
            == '_' || b == '-',
        Run::Blank => blank,
        Run::Between => blank || b == ',',
        Run::Equals => blank || b == '=',
        Run::KeyInBraces => b != ',' && b != '}',
        Run::KeyInParens => b != ',' && b != ')',
        Run::Bare => b != ',' && b != '}' && b != ')',
    }
}

/// The first position from `from` on that does not belong to the run.
fn end_of_run(s: &Vec<char>, run: Run, from: usize) -> (r: usize)
    requires
        from <= s.len(),
    ensures
        r == run_end(s@, run, from as int),
        from <= r <= s.len(),
{
    let mut i: usize = from;
    while i < s.len() && belongs(run, s[i])
        invariant
            from <= i <= s.len(),
            run_end(s@, run, from as int) == run_end(s@, run, i as int),
        decreases s.len() - i,
    {
        i += 1;
    }
    i
}

// ---------------------------------------------------------------------------------------------
// Values
// ---------------------------------------------------------------------------------------------
/// Where the group that is open `depth` times at `i` closes: the position of its `}`, or the end.
/// A backslash takes the character behind it along.
pub open spec fn brace_close(s: Seq<char>, i: int, depth: int) -> int
    decreases s.len() - i + 1,
{
    if i < 0 || i >= s.len() {
        s.len() as int
    } else if s[i] == '\\' {
        brace_close(s, i + 2, depth)
    } else if s[i] == '{' {
        brace_close(s, i + 1, depth + 1)
    } else if s[i] == '}' {
        if depth <= 1 {
            i
        } else {
            brace_close(s, i + 1, depth - 1)
        }
    } else {
        brace_close(s, i + 1, depth)
    }
}

/// Where the quoted value that goes on at `i` closes: the position of its `"`, or the end.
pub open spec fn quote_close(s: Seq<char>, i: int) -> int
    decreases s.len() - i + 1,
{
    if i < 0 || i >= s.len() {
        s.len() as int
    } else if s[i] == '\\' {
        quote_close(s, i + 2)
    } else if s[i] == '"' {
        i
    } else {
        quote_close(s, i + 1)
    }
}

/// The position behind `i`, but not behind the end.
pub open spec fn past(s: Seq<char>, i: int) -> int {
    if i < s.len() {
        i + 1
    } else {
        s.len() as int
    }
}

/// A value that starts at `i`, as it is written, and the position behind it.
pub open spec fn value_at(s: Seq<char>, i: int) -> (Seq<char>, int) {
    if s[i] == '{' {
        let e = brace_close(s, i + 1, 1);
        (s.subrange(i + 1, e), past(s, e))
    } else if s[i] == '"' {
        let e = quote_close(s, i + 1);
        (s.subrange(i + 1, e), past(s, e))
    } else {
        let e = run_end(s, Run::Bare, i);
        (trim(s.subrange(i, e)), e)
    }
}

pub proof fn lemma_brace_close(s: Seq<char>, i: int, depth: int)
    requires
        0 <= i,
    ensures
        i <= s.len() ==> i <= brace_close(s, i, depth),
        brace_close(s, i, depth) <= s.len(),
    decreases s.len() - i + 1,
{
    if i < s.len() {
        lemma_brace_close(s, i + 2, depth);
        lemma_brace_close(s, i + 1, depth + 1);
        lemma_brace_close(s, i + 1, depth - 1);
        lemma_brace_close(s, i + 1, depth);
    }
}

pub proof fn lemma_quote_close(s: Seq<char>, i: int)
    requires
        0 <= i,
    ensures
        i <= s.len() ==> i <= quote_close(s, i),
        quote_close(s, i) <= s.len(),
    decreases s.len() - i + 1,
{
    if i < s.len() {
        lemma_quote_close(s, i + 2);
        lemma_quote_close(s, i + 1);
    }
}

pub proof fn lemma_run_end(s: Seq<char>, run: Run, i: int)
    requires
        0 <= i <= s.len(),
    ensures
        i <= run_end(s, run, i) <= s.len(),
        run_end(s, run, i) < s.len() ==> !in_run(run, s[run_end(s, run, i)]),
    decreases s.len() - i + 1,
{
    if i < s.len() && in_run(run, s[i]) {
        lemma_run_end(s, run, i + 1);
    }
}

/// Reads a `{ ... }` value. Braces nest, and a backslash keeps the character behind it from counting.
/// `s[*i]` is the opening brace; afterwards `*i` is behind the closing one.
fn read_braced(s: &Vec<char>, i: &mut usize) -> (r: String)
    requires
        *old(i) < s.len(),
    ensures
        r@ == s@.subrange(*old(i) + 1, brace_close(s@, *old(i) + 1, 1)),
        *final(i) == past(s@, brace_close(s@, *old(i) + 1, 1)),
        *old(i) < *final(i) <= s.len(),
{
    let start: usize = *i + 1;
    let mut depth: usize = 1;
    let mut j: usize = start;
    proof {
        lemma_brace_close(s@, start as int, 1);
    }
    while j < s.len()
        invariant
            start <= j <= s.len(),
            start == *old(i) + 1,
            1 <= depth <= j,
            brace_close(s@, start as int, 1) == brace_close(s@, j as int, depth as int),
        decreases s.len() - j,
    {
        let c = s[j];
        if c == '\\' {
            if s.len() - j < 2 {
                assert(brace_close(s@, j + 2, depth as int) == brace_close(s@, j + 1, depth as int));
                j = s.len();
            } else {
                j += 2;
            }
            continue;
        }
        if c == '{' {
            depth += 1;
        } else if c == '}' {
            if depth == 1 {
                *i = j + 1;
                return slice(s, start, j);
            }
            depth -= 1;
        }
        j += 1;
    }
    *i = s.len();
    slice(s, start, s.len())
}

/// Reads a quoted `"..."` value. `s[*i]` is the opening quote.
fn read_quoted(s: &Vec<char>, i: &mut usize) -> (r: String)
    requires
        *old(i) < s.len(),
    ensures
        r@ == s@.subrange(*old(i) + 1, quote_close(s@, *old(i) + 1)),
        *final(i) == past(s@, quote_close(s@, *old(i) + 1)),
        *old(i) < *final(i) <= s.len(),
{
    let start: usize = *i + 1;
    let mut j: usize = start;
    while j < s.len()
        invariant
            start <= j <= s.len(),
            start == *old(i) + 1,
            quote_close(s@, start as int) == quote_close(s@, j as int),
        decreases s.len() - j,
    {
        let c = s[j];
        if c == '\\' {
            if s.len() - j < 2 {
                assert(quote_close(s@, j + 2) == quote_close(s@, j + 1));
                j = s.len();
            } else {
                j += 2;
            }
            continue;
        }
        if c == '"' {
            *i = j + 1;
            return slice(s, start, j);
        }
        j += 1;
    }
    *i = s.len();
    slice(s, start, s.len())
}

/// Reads a value without delimiters, up to a comma or a closing bracket.
fn read_bare(s: &Vec<char>, i: &mut usize) -> (r: String)
    requires
        *old(i) <= s.len(),
    ensures
        r@ == trim(s@.subrange(*old(i) as int, run_end(s@, Run::Bare, *old(i) as int))),
        *final(i) == run_end(s@, Run::Bare, *old(i) as int),
        *old(i) <= *final(i) <= s.len(),
{
    let start: usize = *i;
    let e = end_of_run(s, Run::Bare, start);
    *i = e;
    trimmed(slice(s, start, e).as_str())
}

// ---------------------------------------------------------------------------------------------
// Entries
// ---------------------------------------------------------------------------------------------
/// A BibTeX entry. No key stands twice among the fields.
pub struct BibtexEntry {
    pub entry_type: String,
    pub cite_key: String,
    pub fields: Vec<(String, String)>,
}

/// What an entry says.
pub struct EntryModel {
    pub entry_type: Seq<char>,
    pub cite_key: Seq<char>,
    pub fields: Map<Seq<char>, Seq<char>>,
}

/// The first of `keys` that the map has.
pub open spec fn first_key(m: Map<Seq<char>, Seq<char>>, keys: Seq<Seq<char>>) -> Option<Seq<char>>
    decreases keys.len(),
{
    if keys.len() == 0 {
        None
    } else if m.dom().contains(keys[0]) {
        Some(keys[0])
    } else {
        first_key(m, keys.skip(1))
    }
}

/// The value of the first of `keys` that the map has, unless that value is empty.
pub open spec fn lookup(m: Map<Seq<char>, Seq<char>>, keys: Seq<Seq<char>>) -> Option<Seq<char>> {
    match first_key(m, keys) {
        Some(k) => if m[k].len() == 0 {
            None
        } else {
            Some(m[k])
        },
        None => None,
    }
}

/// The texts behind a list of string slices.
pub open spec fn slices(v: Seq<&str>) -> Seq<Seq<char>> {
    Seq::new(v.len(), |i: int| v[i]@)
}

impl BibtexEntry {
    /// What the entry says.
    pub open spec fn model(&self) -> EntryModel {
        EntryModel {
            entry_type: self.entry_type@,
            cite_key: self.cite_key@,
            fields: pairs_map(self.fields@),
        }
    }

    /// No key stands twice among the fields.
    pub open spec fn wf(&self) -> bool {
        keys_distinct(self.fields@)
    }

    /// The value of the first of `keys` that the entry has, unless that value is empty.
    pub fn field(&self, keys: &[&str]) -> (r: Option<&str>)
        requires
            self.wf(),
        ensures
            match r {
                Some(v) => lookup(self.model().fields, slices(keys@)) == Some(v@),
                None => lookup(self.model().fields, slices(keys@)) is None,
            },
    {
        proof {
            lemma_pairs_map(self.fields@);
            assert(slices(keys@).skip(0) =~= slices(keys@));
        }
        let ghost m = self.model().fields;
        let mut i: usize = 0;
        while i < keys.len()
            invariant
                i <= keys.len(),
                m == pairs_map(self.fields@),
                first_key(m, slices(keys@)) == first_key(m, slices(keys@).skip(i as int)),
                forall|k: int|
                    0 <= k < self.fields.len() ==> m.dom().contains((#[trigger] self.fields@[k]).0@)
                        && m[self.fields@[k].0@] == self.fields@[k].1@,
                forall|k: Seq<char>| #[trigger]
                    m.dom().contains(k) ==> exists|l: int|
                        0 <= l < self.fields.len() && (#[trigger] self.fields@[l]).0@ == k,
            decreases keys.len() - i,
        {
            let key = keys[i];
            let mut j: usize = 0;
            while j < self.fields.len()
                invariant
                    i < keys.len(),
                    key@ == slices(keys@)[i as int],
                    j <= self.fields.len(),
                    m == pairs_map(self.fields@),
                    first_key(m, slices(keys@)) == first_key(m, slices(keys@).skip(i as int)),
                    forall|k: int|
                        0 <= k < self.fields.len() ==> m.dom().contains(
                            (#[trigger] self.fields@[k]).0@,
                        ) && m[self.fields@[k].0@] == self.fields@[k].1@,
                    forall|k: int| 0 <= k < j ==> (#[trigger] self.fields@[k]).0@ != key@,
                decreases self.fields.len() - j,
            {
                if same(self.fields[j].0.as_str(), key) {
                    proof {
                        assert(slices(keys@).skip(i as int)[0] == key@);
                        assert(m.dom().contains(self.fields@[j as int].0@));
                    }
                    let v = self.fields[j].1.as_str();
                    if v.is_empty() {
                        return None;
                    }
                    return Some(v);
                }
                j += 1;
            }
            proof {
                assert(slices(keys@).skip(i as int)[0] == key@);
                assert(!m.dom().contains(key@));
                assert(slices(keys@).skip(i as int).skip(1) =~= slices(keys@).skip(i + 1));
            }
            i += 1;
        }
        None
    }
}

/// The fields from `i` on, on top of those in `acc`, and the position behind the entry. A closing
/// bracket of the other kind between two fields is passed over.
pub open spec fn fields_from(
    s: Seq<char>,
    i: int,
    close: char,
    acc: Map<Seq<char>, Seq<char>>,
) -> (Map<Seq<char>, Seq<char>>, int)
    decreases s.len() - i,
{
    let k = run_end(s, Run::Between, i);
    if i < 0 || k < i || k >= s.len() {
        (acc, s.len() as int)
    } else if s[k] == close {
        (acc, k + 1)
    } else if s[k] == '}' || s[k] == ')' {
        fields_from(s, k + 1, close, acc)
    } else {
        let e = run_end(s, Run::Name, k);
        let v = run_end(s, Run::Equals, e);
        let key = lower(s.subrange(k, e));
        if v < k || v >= s.len() {
            (acc, s.len() as int)
        } else {
            let (value, next) = value_at(s, v);
            let fields = if key.len() > 0 {
                acc.insert(key, trim(value))
            } else {
                acc
            };
            if i < next <= s.len() {
                fields_from(s, next, close, fields)
            } else {
                (fields, s.len() as int)
            }
        }
    }
}

/// The entry whose type starts at `i`, if one does, and the position at which to go on.
pub open spec fn entry_at(s: Seq<char>, i: int) -> (Option<EntryModel>, int) {
    let t = run_end(s, Run::Name, i);
    let b = run_end(s, Run::Blank, t);
    if t == i {
        (None, i)
    } else if b >= s.len() || (s[b] != '{' && s[b] != '(') {
        (None, b)
    } else {
        let in_braces = s[b] == '{';
        let close = if in_braces {
            '}'
        } else {
            ')'
        };
        let k = run_end(
            s,
            if in_braces {
                Run::KeyInBraces
            } else {
                Run::KeyInParens
            },
            b + 1,
        );
        let f = if k < s.len() && s[k] == ',' {
            k + 1
        } else {
            k
        };
        let (fields, next) = fields_from(s, f, close, Map::empty());
        (
            Some(
                EntryModel {
                    entry_type: lower(s.subrange(i, t)),
                    cite_key: trim(s.subrange(b + 1, k)),
                    fields,
                },
            ),
            next,
        )
    }
}

/// The entries from `i` on. Outside an entry `%` starts a comment that goes to the end of the
/// line, and everything else is passed over.
pub open spec fn entries_from(s: Seq<char>, i: int) -> Seq<EntryModel>
    decreases s.len() - i,
{
    if i < 0 || i >= s.len() {
        Seq::empty()
    } else if s[i] == '%' {
        let e = run_end(s, Run::Comment, i);
        if i < e <= s.len() {
            entries_from(s, e)
        } else {
            Seq::empty()
        }
    } else if s[i] != '@' {
        entries_from(s, i + 1)
    } else {
        let (entry, next) = entry_at(s, i + 1);
        if next <= i || next > s.len() {
            Seq::empty()
        } else {
            match entry {
                Some(e) => seq![e] + entries_from(s, next),
                None => entries_from(s, next),
            }
        }
    }
}

/// What a list of entries says.
pub open spec fn models(v: Seq<BibtexEntry>) -> Seq<EntryModel> {
    Seq::new(v.len(), |i: int| v[i].model())
}

/// The entries of a BibTeX text.
pub open spec fn bibtex_entries(text: Seq<char>) -> Seq<EntryModel> {
    entries_from(text, 0)
}

/// Reads the fields of an entry from `*i` on.
fn parse_fields(s: &Vec<char>, i: &mut usize, close: char) -> (r: Vec<(String, String)>)
    requires
        *old(i) <= s.len(),
        close == '}' || close == ')',
    ensures
        keys_distinct(r@),
        (pairs_map(r@), *final(i) as int) == fields_from(s@, *old(i) as int, close, Map::empty()),
        *old(i) <= *final(i) <= s.len(),
{
    let ghost start = *i as int;
    let mut fields: Vec<(String, String)> = Vec::new();
    let mut at: usize = *i;
    loop
        invariant
            start <= at <= s.len(),
            keys_distinct(fields@),
            close == '}' || close == ')',
            start == *old(i),
            fields_from(s@, start, close, Map::empty()) == fields_from(
                s@,
                at as int,
                close,
                pairs_map(fields@),
            ),
        decreases s.len() - at,
    {
        let k = end_of_run(s, Run::Between, at);
        if k >= s.len() {
            *i = k;
            return fields;
        }
        if s[k] == close {
            *i = k + 1;
            return fields;
        }
        if s[k] == '}' || s[k] == ')' {
            at = k + 1;
            continue;
        }
        let e = end_of_run(s, Run::Name, k);
        let key = slice(s, k, e);
        let v = end_of_run(s, Run::Equals, e);
        if v >= s.len() {
            *i = v;
            return fields;
        }
        let mut next: usize = v;
        let value = if s[v] == '{' {
            read_braced(s, &mut next)
        } else if s[v] == '"' {
            read_quoted(s, &mut next)
        } else {
            read_bare(s, &mut next)
        };
        proof {
            lemma_run_end(s@, Run::Between, at as int);
            lemma_run_end(s@, Run::Name, k as int);
            assert((value@, next as int) == value_at(s@, v as int));
            if next == at {
                assert(k == at && e == at && v == at);
                lemma_run_end(s@, Run::Bare, v as int);
                assert(!in_run(Run::Bare, s@[v as int]));
            }
        }
        if !key.as_str().is_empty() {
            put(&mut fields, to_lower(key.as_str()), trimmed(value.as_str()));
        }
        at = next;
    }
}

/// Reads the entry whose type starts at `*i`.
fn parse_entry(s: &Vec<char>, i: &mut usize) -> (r: Option<BibtexEntry>)
    requires
        *old(i) <= s.len(),
    ensures
        *old(i) <= *final(i) <= s.len(),
        match r {
            Some(e) => e.wf() && entry_at(s@, *old(i) as int) == (
                Some(e.model()),
                *final(i) as int,
            ),
            None => entry_at(s@, *old(i) as int) == (None::<EntryModel>, *final(i) as int),
        },
{
    let start: usize = *i;
    let t = end_of_run(s, Run::Name, start);
    if t == start {
        return None;
    }
    let b = end_of_run(s, Run::Blank, t);
    *i = b;
    if b >= s.len() || (s[b] != '{' && s[b] != '(') {
        return None;
    }
    let in_braces = s[b] == '{';
    let (close, run): (char, Run) = if in_braces {
        ('}', Run::KeyInBraces)
    } else {
        (')', Run::KeyInParens)
    };
    let k = end_of_run(s, run, b + 1);
    let cite_key = slice(s, b + 1, k);
    let mut next: usize = if k < s.len() && s[k] == ',' {
        k + 1
    } else {
        k
    };
    let fields = parse_fields(s, &mut next, close);
    *i = next;
    Some(
        BibtexEntry {
            entry_type: to_lower(slice(s, start, t).as_str()),
            cite_key: trimmed(cite_key.as_str()),
            fields,
        },
    )
}

/// Reads the entries of a BibTeX text. Braces nest, values may be quoted or bare, a backslash
/// keeps the character behind it from counting, and `%` outside an entry starts a comment.
pub fn parse_bibtex(text: &str) -> (r: Vec<BibtexEntry>)
    ensures
        models(r@) == bibtex_entries(text@),
        forall|i: int| 0 <= i < r.len() ==> (#[trigger] r@[i]).wf(),
{
    let s = chars_of(text);
    let mut entries: Vec<BibtexEntry> = Vec::new();
    let mut i: usize = 0;
    while i < s.len()
        invariant
            i <= s.len(),
            s@ == text@,
            models(entries@) + entries_from(s@, i as int) == bibtex_entries(text@),
            forall|j: int| 0 <= j < entries.len() ==> (#[trigger] entries@[j]).wf(),
        decreases s.len() - i,
    {
        let c = s[i];
        if c == '%' {
            proof {
                lemma_run_end(s@, Run::Comment, i + 1);
            }
            i = end_of_run(&s, Run::Comment, i);
            continue;
        }
        if c != '@' {
            i += 1;
            continue;
        }
        let mut next: usize = i + 1;
        let found = parse_entry(&s, &mut next);
        match found {
            Some(e) => {
                let ghost before = models(entries@);
                let ghost rest = entries_from(s@, next as int);
                entries.push(e);
                proof {
                    assert(models(entries@) =~= before.push(e.model()));
                    assert(before + (seq![e.model()] + rest) =~= before.push(e.model()) + rest);
                }
            },
            None => {},
        }
        i = next;
    }
    assert(models(entries@) + Seq::<EntryModel>::empty() =~= models(entries@));
    entries
}

// ---------------------------------------------------------------------------------------------
// What the entries are mapped to
// ---------------------------------------------------------------------------------------------
/// The texts of a list, trimmed, without those that are then empty.
pub open spec fn nonempty_trimmed(parts: Seq<Seq<char>>) -> Seq<Seq<char>>
    decreases parts.len(),
{
    if parts.len() == 0 {
        Seq::empty()
    } else {
        let t = trim(parts.last());
        if t.len() == 0 {
            nonempty_trimmed(parts.drop_last())
        } else {
            nonempty_trimmed(parts.drop_last()).push(t)
        }
    }
}

/// Splits a list of authors or editors at `and`.
pub fn split_authors(s: &str) -> (r: Vec<String>)
    ensures
        texts(r@) == nonempty_trimmed(split(s@, " and "@)),
{
    broadcast use lemma_texts_push;

    proof {
        reveal_strlit(" and ");
    }
    let parts = split_on(s, " and ");
    let mut out: Vec<String> = Vec::new();
    let mut i: usize = 0;
    assert(texts(out@) =~= Seq::empty());
    while i < parts.len()
        invariant
            i <= parts.len(),
            texts(out@) == nonempty_trimmed(texts(parts@).take(i as int)),
        decreases parts.len() - i,
    {
        proof {
            assert(texts(parts@).take(i + 1).drop_last() =~= texts(parts@).take(i as int));
        }
        let t = trimmed(parts[i].as_str());
        if !t.as_str().is_empty() {
            out.push(t);
        }
        i += 1;
    }
    assert(texts(parts@).take(parts@.len() as int) =~= texts(parts@));
    out
}

/// Whether a text is the name of an author as a list of authors can hold it: it is not empty, has no
/// white space at its ends, and does not hold the word that stands between two names.
pub open spec fn is_listable(name: Seq<char>) -> bool {
    name.len() > 0 && trim(name) == name && !contains(name, " and"@)
}

proof fn lemma_no_word(name: Seq<char>, rest: Seq<char>, j: int)
    requires
        is_listable(name),
        0 <= j < name.len(),
    ensures
        !matches_at(name, " and "@, j),
        !matches_at(name + " and "@ + rest, " and "@, j),
{
    reveal_strlit(" and");
    reveal_strlit(" and ");
    let word = " and "@;
    let s = name + word + rest;
    lemma_find_from(name, " and"@, 0);
    assert(!matches_at(name, " and"@, j));
    if matches_at(name, word, j) {
        assert(name.subrange(j, j + 5)[0] == word[0]);
        assert(name.subrange(j, j + 5)[1] == word[1]);
        assert(name.subrange(j, j + 5)[2] == word[2]);
        assert(name.subrange(j, j + 5)[3] == word[3]);
        assert(name.subrange(j, j + 4) =~= " and"@);
    }
    if matches_at(s, word, j) {
        let w = s.subrange(j, j + 5);
        assert(w[0] == s[j] && w[1] == s[j + 1] && w[2] == s[j + 2] && w[3] == s[j + 3] && w[4]
            == s[j + 4]);
        let m = name.len() - j;
        if m >= 4 {
            assert(name.subrange(j, j + 4) =~= " and"@);
        } else {
            assert(s[name.len() as int] == ' ');
            assert(m == 1 || m == 2 || m == 3);
        }
    }
}

proof fn lemma_split_names(names: Seq<Seq<char>>)
    requires
        names.len() > 0,
        forall|k: int| 0 <= k < names.len() ==> is_listable(#[trigger] names[k]),
    ensures
        split(join(names, " and "@), " and "@) == names,
    decreases names.len(),
{
    reveal_strlit(" and ");
    let word = " and "@;
    if names.len() == 1 {
        assert forall|j: int| 0 <= j implies !#[trigger] matches_at(names[0], word, j) by {
            if j < names[0].len() {
                lemma_no_word(names[0], Seq::empty(), j);
            }
        }
        lemma_split_whole(names[0], word);
        assert(seq![names[0]] =~= names);
    } else {
        let rest = names.skip(1);
        assert forall|k: int| 0 <= k < rest.len() implies is_listable(#[trigger] rest[k]) by {
            assert(rest[k] == names[k + 1]);
        }
        lemma_join_first(names, word);
        lemma_split_names(rest);
        let tail = join(rest, word);
        assert forall|j: int| 0 <= j < names[0].len() implies !#[trigger] matches_at(
            names[0] + word + tail,
            word,
            j,
        ) by {
            lemma_no_word(names[0], tail, j);
        }
        lemma_split_first(names[0], word, tail);
        assert(seq![names[0]] + rest =~= names);
    }
}

proof fn lemma_all_kept(names: Seq<Seq<char>>)
    requires
        forall|k: int| 0 <= k < names.len() ==> is_listable(#[trigger] names[k]),
    ensures
        nonempty_trimmed(names) == names,
    decreases names.len(),
{
    if names.len() > 0 {
        let shorter = names.drop_last();
        assert forall|k: int| 0 <= k < shorter.len() implies is_listable(#[trigger] shorter[k]) by {
            assert(shorter[k] == names[k]);
        }
        lemma_all_kept(shorter);
        assert(is_listable(names[names.len() - 1]));
        assert(shorter.push(names.last()) =~= names);
    } else {
        assert(names =~= Seq::empty());
    }
}

/// Splitting a list of names gives the names back from which it was joined.
pub proof fn law_split_undoes_join(names: Seq<Seq<char>>)
    requires
        forall|k: int| 0 <= k < names.len() ==> is_listable(#[trigger] names[k]),
    ensures
        nonempty_trimmed(split(join(names, " and "@), " and "@)) == names,
{
    reveal_strlit(" and ");
    if names.len() > 0 {
        lemma_split_names(names);
        lemma_all_kept(names);
    } else {
        let none = join(names, " and "@);
        lemma_split_whole(none, " and "@);
        assert(split(none, " and "@).drop_last() =~= Seq::empty());
        lemma_trim_same(none);
        assert(names =~= Seq::empty());
        assert(nonempty_trimmed(split(none, " and "@).drop_last()) =~= Seq::empty());
    }
}

/// The item type that a BibTeX entry type stands for.
pub open spec fn item_type_of(t: Seq<char>) -> Seq<char> {
    if t == "article"@ {
        "journal"@
    } else if t == "book"@ {
        "book"@
    } else if t == "inbook"@ || t == "incollection"@ {
        "bookSection"@
    } else if t == "inproceedings"@ || t == "conference"@ {
        "conference"@
    } else if t == "phdthesis"@ || t == "mastersthesis"@ || t == "thesis"@ {
        "thesis"@
    } else if t == "techreport"@ || t == "report"@ {
        "report"@
    } else if t == "webpage"@ || t == "online"@ || t == "electronic"@ {
        "webpage"@
    } else if t == "newspaper"@ {
        "newspaper"@
    } else if t == "patent"@ {
        "patent"@
    } else {
        "other"@
    }
}

/// The item type that a BibTeX entry type stands for.
pub fn map_item_type(entry_type: &str) -> (r: &'static str)
    ensures
        r@ == item_type_of(entry_type@),
{
    if same(entry_type, "article") {
        "journal"
    } else if same(entry_type, "book") {
        "book"
    } else if same(entry_type, "inbook") || same(entry_type, "incollection") {
        "bookSection"
    } else if same(entry_type, "inproceedings") || same(entry_type, "conference") {
        "conference"
    } else if same(entry_type, "phdthesis") || same(entry_type, "mastersthesis") || same(
        entry_type,
        "thesis",
    ) {
        "thesis"
    } else if same(entry_type, "techreport") || same(entry_type, "report") {
        "report"
    } else if same(entry_type, "webpage") || same(entry_type, "online") || same(
        entry_type,
        "electronic",
    ) {
        "webpage"
    } else if same(entry_type, "newspaper") {
        "newspaper"
    } else if same(entry_type, "patent") {
        "patent"
    } else {
        "other"
    }
}

} // verus!
