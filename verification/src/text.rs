//! Text as a sequence of characters: the searching, splitting and rewriting that the other
//! modules are built on, each with the sequence it yields.
use vstd::prelude::*;
use vstd::string::*;

verus! {

// ---------------------------------------------------------------------------------------------
// Views
// ---------------------------------------------------------------------------------------------
/// The texts that a list of strings holds.
pub open spec fn texts(v: Seq<String>) -> Seq<Seq<char>> {
    Seq::new(v.len(), |i: int| v[i]@)
}

/// The text that an optional string holds.
pub open spec fn opt_text(o: Option<String>) -> Option<Seq<char>> {
    match o {
        Some(s) => Some(s@),
        None => None,
    }
}

/// Appending a string appends its text.
pub broadcast proof fn lemma_texts_push(v: Seq<String>, s: String)
    ensures
        #[trigger] texts(v.push(s)) == texts(v).push(s@),
{
    assert(texts(v.push(s)) =~= texts(v).push(s@));
}

/// A prefix that is one longer ends in the next item.
pub broadcast proof fn lemma_take_next<A>(s: Seq<A>, i: int)
    requires
        0 <= i < s.len(),
    ensures
        #[trigger] s.take(i + 1) == s.take(i).push(s[i]),
{
    assert(s.take(i + 1) =~= s.take(i).push(s[i]));
}

// ---------------------------------------------------------------------------------------------
// Characters
// ---------------------------------------------------------------------------------------------
/// The characters with the White_Space property of Unicode.
pub open spec fn is_space(c: char) -> bool {
    let u = c as u32;
    ||| 0x09 <= u <= 0x0D
    ||| u == 0x20
    ||| u == 0x85
    ||| u == 0xA0
    ||| u == 0x1680
    ||| 0x2000 <= u <= 0x200A
    ||| u == 0x2028
    ||| u == 0x2029
    ||| u == 0x202F
    ||| u == 0x205F
    ||| u == 0x3000
}

/// Tells whether `c` is white space.
pub fn is_whitespace(c: char) -> (r: bool)
    ensures
        r == is_space(c),
{
    let u = c as u32;
    (0x09 <= u && u <= 0x0D) || u == 0x20 || u == 0x85 || u == 0xA0 || u == 0x1680 || (0x2000 <= u
        && u <= 0x200A) || u == 0x2028 || u == 0x2029 || u == 0x202F || u == 0x205F || u == 0x3000
}

/// The ten ASCII digits.
pub open spec fn is_digit(c: char) -> bool {
    '0' <= c <= '9'
}

/// The upper case ASCII letters.
pub open spec fn is_upper(c: char) -> bool {
    'A' <= c <= 'Z'
}

/// The lower case ASCII letters.
pub open spec fn is_lower(c: char) -> bool {
    'a' <= c <= 'z'
}

/// The ASCII letters and digits.
pub open spec fn is_ascii_alnum(c: char) -> bool {
    is_digit(c) || is_upper(c) || is_lower(c)
}

/// Tells whether `c` is an ASCII digit.
pub fn digit_char(c: char) -> (r: bool)
    ensures
        r == is_digit(c),
{
    '0' <= c && c <= '9'
}

/// Tells whether `c` is an ASCII letter or digit.
pub fn ascii_alnum(c: char) -> (r: bool)
    ensures
        r == is_ascii_alnum(c),
{
    ('0' <= c && c <= '9') || ('A' <= c && c <= 'Z') || ('a' <= c && c <= 'z')
}

/// An upper case ASCII letter in lower case, any other character as it is.
pub open spec fn lower_char(c: char) -> char {
    if is_upper(c) {
        ((c as u8) + 32) as char
    } else {
        c
    }
}

/// `c`, in lower case where it is an ASCII letter.
pub fn to_lower_char(c: char) -> (r: char)
    ensures
        r == lower_char(c),
{
    if 'A' <= c && c <= 'Z' {
        ((c as u8) + 32) as char
    } else {
        c
    }
}

/// A text with its ASCII letters in lower case.
pub open spec fn lower(s: Seq<char>) -> Seq<char> {
    Seq::new(s.len(), |i: int| lower_char(s[i]))
}

/// How many bytes UTF-8 spends on `c`.
pub open spec fn utf8_len(c: char) -> nat {
    let u = c as u32;
    if u < 0x80 {
        1
    } else if u < 0x800 {
        2
    } else if u < 0x10000 {
        3
    } else {
        4
    }
}

/// How many bytes UTF-8 spends on `c`.
pub fn utf8_width(c: char) -> (r: usize)
    ensures
        r == utf8_len(c),
        1 <= r <= 4,
{
    let u = c as u32;
    if u < 0x80 {
        1
    } else if u < 0x800 {
        2
    } else if u < 0x10000 {
        3
    } else {
        4
    }
}

// ---------------------------------------------------------------------------------------------
// What std computes from the Unicode tables
// ---------------------------------------------------------------------------------------------
/// The text that `str::to_lowercase` makes of a text.
pub uninterp spec fn lowercase_of(s: Seq<char>) -> Seq<char>;

/// What `char::is_alphanumeric` says of a character.
pub uninterp spec fn alphanumeric(c: char) -> bool;

/// The text that `char::to_lowercase` makes of a character.
pub uninterp spec fn char_lowercase(c: char) -> Seq<char>;

/// Whether every character is ASCII.
pub open spec fn all_ascii(s: Seq<char>) -> bool {
    forall|i: int| 0 <= i < s.len() ==> (#[trigger] s[i] as u32) < 0x80
}

/// `str::to_lowercase` of std. The result is named; of an ASCII text it is also said that the
/// letters `A` to `Z` become `a` to `z` and that nothing else changes.
#[verifier::external_body]
pub(crate) fn to_lowercase(s: &str) -> (r: String)
    ensures
        r@ == lowercase_of(s@),
        all_ascii(s@) ==> r@ == lower(s@),
{
    s.to_lowercase()
}

/// `char::is_alphanumeric` of std. The answer is named; of an ASCII character it is also said
/// that the letters and the digits are meant.
#[verifier::external_body]
pub(crate) fn is_alphanumeric(c: char) -> (r: bool)
    ensures
        r == alphanumeric(c),
        (c as u32) < 0x80 ==> r == is_ascii_alnum(c),
{
    c.is_alphanumeric()
}

/// `char::to_lowercase` of std. The result is named; it is also said that it holds no letter from
/// `A` to `Z`, and of an ASCII character that the letters `A` to `Z` become `a` to `z` and that
/// nothing else changes.
#[verifier::external_body]
pub(crate) fn to_lowercase_char(c: char) -> (r: String)
    ensures
        r@ == char_lowercase(c),
        forall|i: int| 0 <= i < r@.len() ==> !is_upper(#[trigger] r@[i]),
        (c as u32) < 0x80 ==> r@ == seq![lower_char(c)],
{
    c.to_lowercase().collect()
}

/// The text that std makes of bytes that need not be UTF-8.
pub uninterp spec fn lossy_text(bytes: Seq<u8>) -> Seq<char>;

/// `String::from_utf8_lossy` of std. The result is named; of bytes that are UTF-8 it is also said
/// that it is their text.
#[verifier::external_body]
pub(crate) fn from_utf8_lossy(bytes: &[u8]) -> (r: String)
    ensures
        r@ == lossy_text(bytes@),
        vstd::utf8::valid_utf8(bytes@) ==> r@ == vstd::utf8::decode_utf8(bytes@),
{
    String::from_utf8_lossy(bytes).to_string()
}

/// `std::str::from_utf8`: the text of bytes, where they are UTF-8.
#[verifier::external_body]
pub(crate) fn from_utf8(bytes: &[u8]) -> (r: Option<String>)
    ensures
        match r {
            Some(s) => vstd::utf8::valid_utf8(bytes@) && s@ == vstd::utf8::decode_utf8(bytes@),
            None => !vstd::utf8::valid_utf8(bytes@),
        },
{
    std::str::from_utf8(bytes).ok().map(|s| s.to_string())
}

/// `str`'s own comparison in std: two string slices are equal where they hold the same text.
#[verifier::external_body]
pub(crate) fn same(a: &str, b: &str) -> (r: bool)
    ensures
        r == (a@ == b@),
{
    a == b
}

/// `String::push` of std: appends one character.
pub assume_specification[ String::push ](s: &mut String, c: char)
    ensures
        final(s)@ == old(s)@.push(c),
;

// ---------------------------------------------------------------------------------------------
// Between strings and characters
// ---------------------------------------------------------------------------------------------
/// The characters of a string, in order.
pub fn chars_of(s: &str) -> (r: Vec<char>)
    ensures
        r@ == s@,
{
    let mut v: Vec<char> = Vec::new();
    for c in it: s.chars()
        invariant
            v@ == it.seq().take(it.index() as int),
            it.seq() == s@,
    {
        v.push(c);
    }
    v
}

/// The string that holds the given characters.
pub fn string_of(v: &[char]) -> (r: String)
    ensures
        r@ == v@,
{
    broadcast use lemma_take_next;

    let mut s = String::new();
    let mut i: usize = 0;
    while i < v.len()
        invariant
            i <= v.len(),
            s@ == v@.take(i as int),
        decreases v.len() - i,
    {
        s.push(v[i]);
        i += 1;
    }
    assert(v@.take(v@.len() as int) =~= v@);
    s
}

/// The characters from `a` up to `b`, as a string.
pub fn slice(v: &Vec<char>, a: usize, b: usize) -> (r: String)
    requires
        a <= b <= v.len(),
    ensures
        r@ == v@.subrange(a as int, b as int),
{
    string_of(&v[a..b])
}

/// A copy of a list of strings.
pub fn copy_texts(v: &Vec<String>) -> (r: Vec<String>)
    ensures
        texts(r@) == texts(v@),
{
    let mut out: Vec<String> = Vec::new();
    let mut i: usize = 0;
    while i < v.len()
        invariant
            i <= v.len(),
            out.len() == i,
            forall|j: int| 0 <= j < i ==> (#[trigger] out@[j])@ == v@[j]@,
        decreases v.len() - i,
    {
        out.push(v[i].clone());
        i += 1;
    }
    assert(texts(out@) =~= texts(v@));
    out
}

/// A copy of an optional string.
pub fn copy_opt(o: &Option<String>) -> (r: Option<String>)
    ensures
        opt_text(r) == opt_text(*o),
{
    match o {
        Some(s) => Some(s.clone()),
        None => None,
    }
}

/// Two texts, one behind the other.
pub fn concat2(a: &str, b: &str) -> (r: String)
    ensures
        r@ == a@ + b@,
{
    let mut s = a.to_owned();
    s.append(b);
    s
}

/// Three texts, one behind the other.
pub fn concat3(a: &str, b: &str, c: &str) -> (r: String)
    ensures
        r@ == a@ + b@ + c@,
{
    let mut s = a.to_owned();
    s.append(b);
    s.append(c);
    s
}

/// Whether `list` holds the text `s`.
pub open spec fn holds(list: Seq<Seq<char>>, s: Seq<char>) -> bool {
    exists|i: int| 0 <= i < list.len() && #[trigger] list[i] == s
}

/// Tells whether `list` holds the text `s`.
pub fn list_has(list: &Vec<String>, s: &str) -> (r: bool)
    ensures
        r == holds(texts(list@), s@),
{
    let mut i: usize = 0;
    while i < list.len()
        invariant
            i <= list.len(),
            forall|j: int| 0 <= j < i ==> #[trigger] texts(list@)[j] != s@,
        decreases list.len() - i,
    {
        if same(list[i].as_str(), s) {
            assert(texts(list@)[i as int] == s@);
            return true;
        }
        i += 1;
    }
    false
}

// ---------------------------------------------------------------------------------------------
// Searching
// ---------------------------------------------------------------------------------------------
/// Whether `pat` stands in `s` at position `i`.
pub open spec fn matches_at(s: Seq<char>, pat: Seq<char>, i: int) -> bool {
    0 <= i && i + pat.len() <= s.len() && s.subrange(i, i + pat.len()) == pat
}

/// The first position from `i` on at which `pat` stands in `s`.
pub open spec fn find_from(s: Seq<char>, pat: Seq<char>, i: int) -> Option<int>
    decreases s.len() - i + 1,
{
    if i < 0 || i + pat.len() > s.len() {
        None
    } else if matches_at(s, pat, i) {
        Some(i)
    } else {
        find_from(s, pat, i + 1)
    }
}

/// Whether `pat` stands somewhere in `s`.
pub open spec fn contains(s: Seq<char>, pat: Seq<char>) -> bool {
    find_from(s, pat, 0) is Some
}

/// Whether `s` begins with `pat`.
pub open spec fn starts_with(s: Seq<char>, pat: Seq<char>) -> bool {
    matches_at(s, pat, 0)
}

/// Whether `s` ends with `pat`.
pub open spec fn ends_with(s: Seq<char>, pat: Seq<char>) -> bool {
    matches_at(s, pat, s.len() - pat.len())
}

/// What `find_from` finds is the least position with a match, and it finds one where there is one.
pub proof fn lemma_find_from(s: Seq<char>, pat: Seq<char>, i: int)
    requires
        0 <= i,
    ensures
        match find_from(s, pat, i) {
            Some(k) => i <= k && matches_at(s, pat, k) && forall|j: int|
                i <= j < k ==> !#[trigger] matches_at(s, pat, j),
            None => forall|j: int| i <= j ==> !#[trigger] matches_at(s, pat, j),
        },
    decreases s.len() - i + 1,
{
    if i + pat.len() > s.len() {
    } else if matches_at(s, pat, i) {
    } else {
        lemma_find_from(s, pat, i + 1);
    }
}

/// Tells whether `pat` stands in `s` at position `i`.
pub fn at(s: &[char], pat: &[char], i: usize) -> (r: bool)
    ensures
        r == matches_at(s@, pat@, i as int),
{
    if i > s.len() || pat.len() > s.len() - i {
        return false;
    }
    let mut j: usize = 0;
    while j < pat.len()
        invariant
            j <= pat.len(),
            i + pat.len() <= s.len(),
            forall|k: int| 0 <= k < j ==> s@[i + k] == #[trigger] pat@[k],
        decreases pat.len() - j,
    {
        if s[i + j] != pat[j] {
            assert(s@.subrange(i as int, i + pat@.len())[j as int] != pat@[j as int]);
            return false;
        }
        j += 1;
    }
    assert(s@.subrange(i as int, i + pat@.len()) =~= pat@);
    true
}

/// The first position from `from` on at which `pat` stands in `s`.
pub fn find_at(s: &[char], pat: &[char], from: usize) -> (r: Option<usize>)
    ensures
        match r {
            Some(k) => find_from(s@, pat@, from as int) == Some(k as int) && from <= k && k
                + pat.len() <= s.len(),
            None => find_from(s@, pat@, from as int) is None,
        },
{
    let mut i: usize = from;
    while i <= s.len() && pat.len() <= s.len() - i
        invariant
            from <= i,
            i <= s.len() || i == from,
            find_from(s@, pat@, from as int) == find_from(s@, pat@, i as int),
        decreases s.len() - i,
    {
        if at(s, pat, i) {
            return Some(i);
        }
        if i == s.len() {
            assert(find_from(s@, pat@, i + 1) is None);
            return None;
        }
        i += 1;
    }
    None
}

/// Tells whether `s` begins with `pat`.
pub fn has_prefix(s: &str, pat: &str) -> (r: bool)
    ensures
        r == starts_with(s@, pat@),
{
    let a = chars_of(s);
    let b = chars_of(pat);
    at(&a, &b, 0)
}

/// Tells whether `s` ends with `pat`.
pub fn has_suffix(s: &str, pat: &str) -> (r: bool)
    ensures
        r == ends_with(s@, pat@),
{
    let a = chars_of(s);
    let b = chars_of(pat);
    if b.len() > a.len() {
        return false;
    }
    at(&a, &b, a.len() - b.len())
}

/// Tells whether `pat` stands somewhere in `s`.
pub fn has_text(s: &str, pat: &str) -> (r: bool)
    ensures
        r == contains(s@, pat@),
{
    let a = chars_of(s);
    let b = chars_of(pat);
    find_at(&a, &b, 0).is_some()
}

/// What is left of a text behind a prefix, where it begins with that.
pub open spec fn strip_prefix(s: Seq<char>, pat: Seq<char>) -> Option<Seq<char>> {
    if starts_with(s, pat) {
        Some(s.skip(pat.len() as int))
    } else {
        None
    }
}

/// What is left of a text before a suffix, where it ends with that.
pub open spec fn strip_suffix(s: Seq<char>, pat: Seq<char>) -> Option<Seq<char>> {
    if ends_with(s, pat) {
        Some(s.take(s.len() - pat.len()))
    } else {
        None
    }
}

/// What is left of `s` behind `pat`, where it begins with that.
pub fn without_prefix(s: &str, pat: &str) -> (r: Option<String>)
    ensures
        opt_text(r) == strip_prefix(s@, pat@),
{
    let a = chars_of(s);
    let b = chars_of(pat);
    if at(&a, &b, 0) {
        assert(a@.subrange(b.len() as int, a.len() as int) =~= s@.skip(pat@.len() as int));
        Some(slice(&a, b.len(), a.len()))
    } else {
        None
    }
}

/// What is left of `s` before `pat`, where it ends with that.
pub fn without_suffix(s: &str, pat: &str) -> (r: Option<String>)
    ensures
        opt_text(r) == strip_suffix(s@, pat@),
{
    let a = chars_of(s);
    let b = chars_of(pat);
    if b.len() <= a.len() && at(&a, &b, a.len() - b.len()) {
        assert(a@.subrange(0, a.len() - b.len()) =~= s@.take(s@.len() - pat@.len()));
        Some(slice(&a, 0, a.len() - b.len()))
    } else {
        None
    }
}

/// The two sides of the first place at which `pat` stands in `s`.
pub open spec fn split_once(s: Seq<char>, pat: Seq<char>) -> Option<(Seq<char>, Seq<char>)> {
    match find_from(s, pat, 0) {
        Some(i) => Some((s.take(i), s.skip(i + pat.len()))),
        None => None,
    }
}

/// The two sides of the first place at which `pat` stands in `s`.
pub fn cut(s: &str, pat: &str) -> (r: Option<(String, String)>)
    ensures
        match r {
            Some(p) => split_once(s@, pat@) == Some((p.0@, p.1@)),
            None => split_once(s@, pat@) is None,
        },
{
    let a = chars_of(s);
    let b = chars_of(pat);
    match find_at(&a, &b, 0) {
        Some(i) => {
            assert(a@.subrange(0, i as int) =~= s@.take(i as int));
            assert(a@.subrange(i + b.len(), a.len() as int) =~= s@.skip(i + pat@.len()));
            Some((slice(&a, 0, i), slice(&a, i + b.len(), a.len())))
        },
        None => None,
    }
}

// ---------------------------------------------------------------------------------------------
// Splitting, joining and replacing
// ---------------------------------------------------------------------------------------------
/// The pieces of `s` from `start` on, between the places at which `pat` stands.
pub open spec fn split_from(s: Seq<char>, pat: Seq<char>, start: int) -> Seq<Seq<char>>
    decreases s.len() - start,
{
    match find_from(s, pat, start) {
        Some(i) => if pat.len() > 0 && start <= i && i + pat.len() <= s.len() {
            seq![s.subrange(start, i)] + split_from(s, pat, i + pat.len())
        } else {
            seq![s.skip(start)]
        },
        None => seq![s.skip(start)],
    }
}

/// The pieces of `s` between the places at which `pat` stands.
pub open spec fn split(s: Seq<char>, pat: Seq<char>) -> Seq<Seq<char>> {
    split_from(s, pat, 0)
}

/// The pieces of `s` between the places at which `pat` stands.
pub fn split_on(s: &str, pat: &str) -> (r: Vec<String>)
    requires
        pat@.len() > 0,
    ensures
        texts(r@) == split(s@, pat@),
        r.len() > 0,
{
    broadcast use lemma_texts_push;

    let a = chars_of(s);
    let b = chars_of(pat);
    let mut out: Vec<String> = Vec::new();
    let mut start: usize = 0;
    loop
        invariant
            a@ == s@,
            b@ == pat@,
            pat@.len() > 0,
            start <= a.len(),
            texts(out@) + split_from(s@, pat@, start as int) == split(s@, pat@),
        decreases a.len() - start,
    {
        match find_at(&a, &b, start) {
            Some(i) => {
                let ghost before = texts(out@);
                out.push(slice(&a, start, i));
                proof {
                    let piece = s@.subrange(start as int, i as int);
                    let rest = split_from(s@, pat@, i + pat@.len());
                    assert(before + (seq![piece] + rest) =~= before.push(piece) + rest);
                }
                start = i + b.len();
            },
            None => {
                let ghost before = texts(out@);
                out.push(slice(&a, start, a.len()));
                proof {
                    assert(a@.subrange(start as int, a.len() as int) =~= s@.skip(start as int));
                    assert(before + seq![s@.skip(start as int)] =~= before.push(
                        s@.skip(start as int),
                    ));
                }
                return out;
            },
        }
    }
}

/// A line without the carriage return at its end.
pub open spec fn without_return(line: Seq<char>) -> Seq<char> {
    if line.len() > 0 && line.last() == '\r' {
        line.drop_last()
    } else {
        line
    }
}

/// The lines that the pieces between line feeds make: the last piece is one only where it is not
/// empty, and the others lose the carriage return at their end.
pub open spec fn lines_of_pieces(pieces: Seq<Seq<char>>) -> Seq<Seq<char>> {
    let n = (pieces.len() - 1) as nat;
    let full = Seq::new(n, |i: int| without_return(pieces[i]));
    if pieces.len() > 0 && pieces.last().len() > 0 {
        full.push(pieces.last())
    } else {
        full
    }
}

/// The lines of a text.
pub open spec fn lines(s: Seq<char>) -> Seq<Seq<char>> {
    lines_of_pieces(split(s, "\n"@))
}

/// The lines of `s`.
pub fn lines_of(s: &str) -> (r: Vec<String>)
    ensures
        texts(r@) == lines(s@),
{
    broadcast use lemma_texts_push;

    proof {
        reveal_strlit("\n");
    }
    let pieces = split_on(s, "\n");
    let ghost all = texts(pieces@);
    let ghost full = Seq::new((all.len() - 1) as nat, |i: int| without_return(all[i]));
    let mut out: Vec<String> = Vec::new();
    let mut i: usize = 0;
    assert(texts(out@) =~= full.take(0));
    while i + 1 < pieces.len()
        invariant
            i + 1 <= pieces.len(),
            all == texts(pieces@),
            full == Seq::new((all.len() - 1) as nat, |i: int| without_return(all[i])),
            texts(out@) == full.take(i as int),
        decreases pieces.len() - i,
    {
        let a = chars_of(pieces[i].as_str());
        let ghost before = texts(out@);
        if a.len() > 0 && a[a.len() - 1] == '\r' {
            assert(a@.subrange(0, a.len() - 1) =~= a@.drop_last());
            out.push(slice(&a, 0, a.len() - 1));
        } else {
            out.push(pieces[i].clone());
        }
        proof {
            assert(texts(out@) =~= before.push(full[i as int]));
            lemma_take_next(full, i as int);
        }
        i += 1;
    }
    assert(full.take(full.len() as int) =~= full);
    let ghost before = texts(out@);
    let last = &pieces[pieces.len() - 1];
    if !last.as_str().is_empty() {
        out.push(last.clone());
        assert(texts(out@) =~= before.push(all.last()));
    }
    out
}

/// The texts one behind the other, with `sep` between neighbours.
pub open spec fn join(parts: Seq<Seq<char>>, sep: Seq<char>) -> Seq<char>
    decreases parts.len(),
{
    if parts.len() == 0 {
        Seq::empty()
    } else if parts.len() == 1 {
        parts[0]
    } else {
        join(parts.drop_last(), sep) + sep + parts.last()
    }
}

/// The texts one behind the other, with `sep` between neighbours.
pub fn join_with(parts: &Vec<String>, sep: &str) -> (r: String)
    ensures
        r@ == join(texts(parts@), sep@),
{
    let mut out = String::new();
    let mut i: usize = 0;
    while i < parts.len()
        invariant
            i <= parts.len(),
            out@ == join(texts(parts@).take(i as int), sep@),
        decreases parts.len() - i,
    {
        let ghost all = texts(parts@);
        proof {
            assert(all.take(i + 1).drop_last() =~= all.take(i as int));
            assert(all.take(i + 1).last() == all[i as int]);
        }
        if i == 0 {
            out = parts[i].clone();
        } else {
            out.append(sep);
            out.append(parts[i].as_str());
        }
        i += 1;
    }
    assert(texts(parts@).take(parts@.len() as int) =~= texts(parts@));
    out
}

/// `s` from `start` on, with `with` in every place at which `pat` stands.
pub open spec fn replace_from(
    s: Seq<char>,
    pat: Seq<char>,
    with: Seq<char>,
    start: int,
) -> Seq<char>
    decreases s.len() - start,
{
    match find_from(s, pat, start) {
        Some(i) => if pat.len() > 0 && start <= i && i + pat.len() <= s.len() {
            s.subrange(start, i) + with + replace_from(s, pat, with, i + pat.len())
        } else {
            s.skip(start)
        },
        None => s.skip(start),
    }
}

/// `s` with `with` in every place at which `pat` stands.
pub open spec fn replace(s: Seq<char>, pat: Seq<char>, with: Seq<char>) -> Seq<char> {
    replace_from(s, pat, with, 0)
}

/// `s` with `with` in every place at which `pat` stands.
pub fn replaced(s: &str, pat: &str, with: &str) -> (r: String)
    requires
        pat@.len() > 0,
    ensures
        r@ == replace(s@, pat@, with@),
{
    let a = chars_of(s);
    let b = chars_of(pat);
    let mut out = String::new();
    let mut start: usize = 0;
    loop
        invariant
            a@ == s@,
            b@ == pat@,
            pat@.len() > 0,
            start <= a.len(),
            out@ + replace_from(s@, pat@, with@, start as int) == replace(s@, pat@, with@),
        decreases a.len() - start,
    {
        match find_at(&a, &b, start) {
            Some(i) => {
                let ghost before = out@;
                out.append(slice(&a, start, i).as_str());
                out.append(with);
                proof {
                    let piece = s@.subrange(start as int, i as int);
                    let rest = replace_from(s@, pat@, with@, i + pat@.len());
                    assert(before + (piece + with@ + rest) =~= (before + piece + with@) + rest);
                }
                start = i + b.len();
            },
            None => {
                assert(a@.subrange(start as int, a.len() as int) =~= s@.skip(start as int));
                out.append(slice(&a, start, a.len()).as_str());
                return out;
            },
        }
    }
}

// ---------------------------------------------------------------------------------------------
// Trimming and case
// ---------------------------------------------------------------------------------------------
/// The first position from `i` on at which no white space stands.
pub open spec fn space_end(s: Seq<char>, i: int) -> int
    decreases s.len() - i,
{
    if 0 <= i < s.len() && is_space(s[i]) {
        space_end(s, i + 1)
    } else {
        i
    }
}

/// The least position from `lo` on such that only white space stands between it and `i`.
pub open spec fn space_start(s: Seq<char>, lo: int, i: int) -> int
    decreases i - lo,
{
    if lo < i <= s.len() && is_space(s[i - 1]) {
        space_start(s, lo, i - 1)
    } else {
        i
    }
}

/// A text without the white space at its two ends.
pub open spec fn trim(s: Seq<char>) -> Seq<char> {
    let a = space_end(s, 0);
    s.subrange(a, space_start(s, a, s.len() as int))
}

/// A text without the white space at its beginning.
pub open spec fn trim_start(s: Seq<char>) -> Seq<char> {
    s.skip(space_end(s, 0))
}

/// The first position from `from` on at which no white space stands.
pub fn skip_space(s: &[char], from: usize) -> (r: usize)
    requires
        from <= s.len(),
    ensures
        r == space_end(s@, from as int),
        from <= r <= s.len(),
{
    let mut i: usize = from;
    while i < s.len() && is_whitespace(s[i])
        invariant
            from <= i <= s.len(),
            space_end(s@, from as int) == space_end(s@, i as int),
        decreases s.len() - i,
    {
        i += 1;
    }
    i
}

/// The least position from `lo` on such that only white space stands between it and `hi`.
pub fn skip_space_back(s: &[char], lo: usize, hi: usize) -> (r: usize)
    requires
        lo <= hi <= s.len(),
    ensures
        r == space_start(s@, lo as int, hi as int),
        lo <= r <= hi,
{
    let mut i: usize = hi;
    while i > lo && is_whitespace(s[i - 1])
        invariant
            lo <= i <= hi <= s.len(),
            space_start(s@, lo as int, hi as int) == space_start(s@, lo as int, i as int),
        decreases i,
    {
        i -= 1;
    }
    i
}

/// Before a stretch of white space stands none.
pub proof fn lemma_space_start(s: Seq<char>, lo: int, i: int)
    requires
        0 <= lo <= i <= s.len(),
    ensures
        lo <= space_start(s, lo, i) <= i,
        space_start(s, lo, i) > lo ==> !is_space(s[space_start(s, lo, i) - 1]),
    decreases i - lo,
{
    if lo < i && is_space(s[i - 1]) {
        lemma_space_start(s, lo, i - 1);
    }
}

/// A trimmed text neither begins nor ends with white space.
pub proof fn lemma_trim_ends(s: Seq<char>)
    ensures
        trim(s).len() > 0 ==> !is_space(trim(s)[0]) && !is_space(trim(s).last()),
        trim(s).len() <= s.len(),
{
    let a = space_end(s, 0);
    lemma_space_end(s, 0);
    lemma_space_start(s, a, s.len() as int);
}

/// What trimming leaves is a part of the text.
pub proof fn lemma_trim_subrange(s: Seq<char>)
    ensures
        exists|a: int, b: int|
            0 <= a <= b <= s.len() && #[trigger] s.subrange(a, b) == trim(s),
{
    let a = space_end(s, 0);
    lemma_space_end(s, 0);
    lemma_space_start(s, a, s.len() as int);
    assert(s.subrange(a, space_start(s, a, s.len() as int)) == trim(s));
}

/// Trimming a trimmed text changes nothing.
pub proof fn lemma_trim_idempotent(s: Seq<char>)
    ensures
        trim(trim(s)) == trim(s),
{
    lemma_trim_ends(s);
    let t = trim(s);
    if t.len() > 0 {
        assert(space_end(t, 0) == 0);
        assert(space_start(t, 0, t.len() as int) == t.len());
        assert(t.subrange(0, t.len() as int) =~= t);
    } else {
        assert(t.subrange(0, 0) =~= t);
    }
}

/// `s` without the white space at its two ends.
pub fn trimmed(s: &str) -> (r: String)
    ensures
        r@ == trim(s@),
{
    let a = chars_of(s);
    let lo = skip_space(&a, 0);
    let hi = skip_space_back(&a, lo, a.len());
    slice(&a, lo, hi)
}

/// `s` without the white space at its beginning.
pub fn trimmed_start(s: &str) -> (r: String)
    ensures
        r@ == trim_start(s@),
{
    let a = chars_of(s);
    let lo = skip_space(&a, 0);
    assert(a@.subrange(lo as int, a.len() as int) =~= trim_start(s@));
    slice(&a, lo, a.len())
}

/// `s` with its ASCII letters in lower case.
pub fn to_lower(s: &str) -> (r: String)
    ensures
        r@ == lower(s@),
{
    let a = chars_of(s);
    let mut out = String::new();
    let mut i: usize = 0;
    while i < a.len()
        invariant
            i <= a.len(),
            a@ == s@,
            out@ == lower(s@).take(i as int),
        decreases a.len() - i,
    {
        out.push(to_lower_char(a[i]));
        proof {
            lemma_take_next(lower(s@), i as int);
        }
        i += 1;
    }
    assert(lower(s@).take(s@.len() as int) =~= lower(s@));
    out
}

/// The first `n` characters of a text.
pub open spec fn first_chars(s: Seq<char>, n: int) -> Seq<char> {
    if s.len() <= n {
        s
    } else {
        s.take(n)
    }
}

/// The first `n` characters of `s`.
pub fn take_chars(s: &str, n: usize) -> (r: String)
    ensures
        r@ == first_chars(s@, n as int),
{
    let a = chars_of(s);
    if a.len() <= n {
        s.to_owned()
    } else {
        assert(a@.subrange(0, n as int) =~= s@.take(n as int));
        slice(&a, 0, n)
    }
}

/// How many bytes the UTF-8 form of a text has.
pub open spec fn byte_len(s: Seq<char>) -> nat
    decreases s.len(),
{
    if s.len() == 0 {
        0
    } else {
        byte_len(s.drop_last()) + utf8_len(s.last())
    }
}

/// The first position from `i` on at which a character of `stops` stands, or the end.
pub open spec fn stop_from(s: Seq<char>, stops: Seq<char>, i: int) -> int
    decreases s.len() - i,
{
    if 0 <= i < s.len() && !stops.contains(s[i]) {
        stop_from(s, stops, i + 1)
    } else {
        i
    }
}

/// What stands before the first character of `stops`; all of `s` where there is none.
pub open spec fn until(s: Seq<char>, stops: Seq<char>) -> Seq<char> {
    s.take(stop_from(s, stops, 0))
}

/// What stands before the first character of `stops`; all of `s` where there is none.
pub fn until_any(s: &str, stops: &str) -> (r: String)
    ensures
        r@ == until(s@, stops@),
{
    let a = chars_of(s);
    let b = chars_of(stops);
    let mut i: usize = 0;
    while i < a.len() && !among(a[i], &b)
        invariant
            i <= a.len(),
            a@ == s@,
            b@ == stops@,
            stop_from(s@, stops@, 0) == stop_from(s@, stops@, i as int),
        decreases a.len() - i,
    {
        i += 1;
    }
    assert(a@.subrange(0, i as int) =~= s@.take(i as int));
    slice(&a, 0, i)
}

/// The least position such that from there up to `i` no `c` stands.
pub open spec fn segment_start(s: Seq<char>, c: char, i: int) -> int
    decreases i,
{
    if 0 < i <= s.len() && s[i - 1] != c {
        segment_start(s, c, i - 1)
    } else {
        i
    }
}

/// What stands behind the last `c`; all of `s` where there is none.
pub open spec fn after_last(s: Seq<char>, c: char) -> Seq<char> {
    s.skip(segment_start(s, c, s.len() as int))
}

/// Where the part of `s` behind the last `c` begins.
pub fn last_segment(s: &[char], c: char) -> (r: usize)
    ensures
        r == segment_start(s@, c, s@.len() as int),
        r <= s.len(),
{
    let mut i: usize = s.len();
    while i > 0 && s[i - 1] != c
        invariant
            i <= s.len(),
            segment_start(s@, c, s@.len() as int) == segment_start(s@, c, i as int),
        decreases i,
    {
        i -= 1;
    }
    i
}

/// What stands behind the last `c`; all of `s` where there is none.
pub fn behind_last(s: &str, c: char) -> (r: String)
    ensures
        r@ == after_last(s@, c),
{
    let a = chars_of(s);
    let i = last_segment(&a, c);
    assert(a@.subrange(i as int, a.len() as int) =~= after_last(s@, c));
    slice(&a, i, a.len())
}

/// `s` without all the `pat` at its end.
pub open spec fn strip_end(s: Seq<char>, pat: Seq<char>) -> Seq<char>
    decreases s.len(),
{
    if pat.len() > 0 && ends_with(s, pat) {
        strip_end(s.take(s.len() - pat.len()), pat)
    } else {
        s
    }
}

/// What is left before the stripped ends is a beginning of the text.
pub proof fn lemma_strip_end_prefix(s: Seq<char>, pat: Seq<char>)
    ensures
        strip_end(s, pat).len() <= s.len(),
        strip_end(s, pat) == s.take(strip_end(s, pat).len() as int),
        pat.len() > 0 ==> !ends_with(strip_end(s, pat), pat),
    decreases s.len(),
{
    if pat.len() > 0 && ends_with(s, pat) {
        let t = s.take(s.len() - pat.len());
        lemma_strip_end_prefix(t, pat);
        let n = strip_end(t, pat).len() as int;
        assert(t.take(n) =~= s.take(n));
    } else {
        assert(s.take(s.len() as int) =~= s);
    }
}

/// `s` without all the `pat` at its end.
pub fn stripped_end(s: &str, pat: &str) -> (r: String)
    requires
        pat@.len() > 0,
    ensures
        r@ == strip_end(s@, pat@),
{
    let a = chars_of(s);
    let b = chars_of(pat);
    let mut n: usize = a.len();
    assert(a@.take(n as int) =~= s@);
    while n >= b.len() && at_end(&a, n, &b)
        invariant
            n <= a.len(),
            a@ == s@,
            b@ == pat@,
            pat@.len() > 0,
            strip_end(s@, pat@) == strip_end(s@.take(n as int), pat@),
        decreases n,
    {
        assert(s@.take(n as int).take(n - pat@.len()) =~= s@.take(n - pat@.len()));
        n -= b.len();
    }
    assert(a@.subrange(0, n as int) =~= s@.take(n as int));
    slice(&a, 0, n)
}

/// The first position from `i` on at which no `c` stands.
pub open spec fn run_of(s: Seq<char>, c: char, i: int) -> int
    decreases s.len() - i,
{
    if 0 <= i < s.len() && s[i] == c {
        run_of(s, c, i + 1)
    } else {
        i
    }
}

/// The least position from `lo` on such that only `c` stands between it and `i`.
pub open spec fn run_back(s: Seq<char>, c: char, lo: int, i: int) -> int
    decreases i - lo,
{
    if lo < i <= s.len() && s[i - 1] == c {
        run_back(s, c, lo, i - 1)
    } else {
        i
    }
}

/// `s` without all the `c` at its two ends.
pub open spec fn strip_both(s: Seq<char>, c: char) -> Seq<char> {
    let a = run_of(s, c, 0);
    s.subrange(a, run_back(s, c, a, s.len() as int))
}

/// `s` without all the `c` at its two ends.
pub fn stripped_both(s: &str, c: char) -> (r: String)
    ensures
        r@ == strip_both(s@, c),
{
    let a = chars_of(s);
    let mut lo: usize = 0;
    while lo < a.len() && a[lo] == c
        invariant
            lo <= a.len(),
            a@ == s@,
            run_of(s@, c, 0) == run_of(s@, c, lo as int),
        decreases a.len() - lo,
    {
        lo += 1;
    }
    let mut hi: usize = a.len();
    while hi > lo && a[hi - 1] == c
        invariant
            lo <= hi <= a.len(),
            a@ == s@,
            run_back(s@, c, lo as int, s@.len() as int) == run_back(s@, c, lo as int, hi as int),
        decreases hi,
    {
        hi -= 1;
    }
    slice(&a, lo, hi)
}

/// Tells whether the first `n` characters of `s` end with `pat`.
fn at_end(s: &Vec<char>, n: usize, pat: &Vec<char>) -> (r: bool)
    requires
        pat.len() <= n <= s.len(),
    ensures
        r == ends_with(s@.take(n as int), pat@),
{
    let i: usize = n - pat.len();
    let r = at(s, pat, i);
    assert(s@.take(n as int).subrange(i as int, i + pat@.len()) =~= s@.subrange(
        i as int,
        i + pat@.len(),
    ));
    r
}

/// Whether every character is an ASCII letter or digit.
pub open spec fn all_alnum(s: Seq<char>) -> bool {
    forall|i: int| 0 <= i < s.len() ==> is_ascii_alnum(#[trigger] s[i])
}

/// Tells whether every character is an ASCII letter or digit.
pub fn only_alnum(s: &str) -> (r: bool)
    ensures
        r == all_alnum(s@),
{
    let a = chars_of(s);
    let mut i: usize = 0;
    while i < a.len()
        invariant
            i <= a.len(),
            a@ == s@,
            forall|j: int| 0 <= j < i ==> is_ascii_alnum(#[trigger] s@[j]),
        decreases a.len() - i,
    {
        if !ascii_alnum(a[i]) {
            return false;
        }
        i += 1;
    }
    true
}

/// Tells whether `s` consists of ASCII digits, at least one.
pub fn only_digits(s: &str) -> (r: bool)
    ensures
        r == is_number(s@),
{
    let a = chars_of(s);
    if a.len() == 0 {
        return false;
    }
    let mut i: usize = 0;
    while i < a.len()
        invariant
            i <= a.len(),
            a@ == s@,
            a.len() > 0,
            forall|j: int| 0 <= j < i ==> is_digit(#[trigger] s@[j]),
        decreases a.len() - i,
    {
        if !digit_char(a[i]) {
            assert(!is_digit(s@[i as int]));
            return false;
        }
        i += 1;
    }
    true
}

/// The first position from `i` on at which white space stands.
pub open spec fn word_end(s: Seq<char>, i: int) -> int
    decreases s.len() - i,
{
    if 0 <= i < s.len() && !is_space(s[i]) {
        word_end(s, i + 1)
    } else {
        i
    }
}

/// The words of `s` from `i` on: the longest stretches without white space.
pub open spec fn words_from(s: Seq<char>, i: int) -> Seq<Seq<char>>
    decreases s.len() - i,
{
    let a = space_end(s, i);
    let e = word_end(s, a);
    if 0 <= i <= a < s.len() && a < e <= s.len() {
        seq![s.subrange(a, e)] + words_from(s, e)
    } else {
        Seq::empty()
    }
}

/// The words of a text: the longest stretches without white space.
pub open spec fn words(s: Seq<char>) -> Seq<Seq<char>> {
    words_from(s, 0)
}

/// The words of `s`.
pub fn words_of(s: &str) -> (r: Vec<String>)
    ensures
        texts(r@) == words(s@),
{
    broadcast use lemma_texts_push;

    let a = chars_of(s);
    let mut out: Vec<String> = Vec::new();
    let mut i: usize = 0;
    loop
        invariant
            a@ == s@,
            i <= a.len(),
            texts(out@) + words_from(s@, i as int) == words(s@),
        decreases a.len() - i,
    {
        let lo = skip_space(&a, i);
        if lo == a.len() {
            assert(texts(out@) + Seq::<Seq<char>>::empty() =~= texts(out@));
            return out;
        }
        let mut hi: usize = lo;
        while hi < a.len() && !is_whitespace(a[hi])
            invariant
                a@ == s@,
                lo <= hi <= a.len(),
                lo < a.len(),
                word_end(s@, lo as int) == word_end(s@, hi as int),
            decreases a.len() - hi,
        {
            hi += 1;
        }
        proof {
            lemma_space_end(s@, i as int);
        }
        let ghost before = texts(out@);
        let ghost piece = s@.subrange(lo as int, hi as int);
        out.push(slice(&a, lo, hi));
        proof {
            let rest = words_from(s@, hi as int);
            assert(before + (seq![piece] + rest) =~= before.push(piece) + rest);
        }
        i = hi;
    }
}

/// Behind a stretch of white space stands none.
pub proof fn lemma_space_end(s: Seq<char>, i: int)
    requires
        0 <= i <= s.len(),
    ensures
        i <= space_end(s, i) <= s.len(),
        space_end(s, i) < s.len() ==> !is_space(s[space_end(s, i)]),
        forall|j: int| i <= j < space_end(s, i) ==> is_space(#[trigger] s[j]),
    decreases s.len() - i,
{
    if i < s.len() && is_space(s[i]) {
        lemma_space_end(s, i + 1);
    }
}

/// `s` without the characters that stand in `bad`.
pub open spec fn without(s: Seq<char>, bad: Seq<char>) -> Seq<char>
    decreases s.len(),
{
    if s.len() == 0 {
        Seq::empty()
    } else if bad.contains(s.last()) {
        without(s.drop_last(), bad)
    } else {
        without(s.drop_last(), bad).push(s.last())
    }
}

/// Tells whether `c` is among `list`.
pub fn among(c: char, list: &Vec<char>) -> (r: bool)
    ensures
        r == list@.contains(c),
{
    let mut i: usize = 0;
    while i < list.len()
        invariant
            i <= list.len(),
            forall|j: int| 0 <= j < i ==> list@[j] != c,
        decreases list.len() - i,
    {
        if list[i] == c {
            return true;
        }
        i += 1;
    }
    false
}

/// `s` without the characters that stand in `bad`.
pub fn without_chars(s: &str, bad: &str) -> (r: String)
    ensures
        r@ == without(s@, bad@),
{
    let a = chars_of(s);
    let b = chars_of(bad);
    let mut out = String::new();
    let mut i: usize = 0;
    while i < a.len()
        invariant
            i <= a.len(),
            a@ == s@,
            b@ == bad@,
            out@ == without(s@.take(i as int), bad@),
        decreases a.len() - i,
    {
        assert(s@.take(i + 1).drop_last() =~= s@.take(i as int));
        if !among(a[i], &b) {
            out.push(a[i]);
        }
        i += 1;
    }
    assert(s@.take(s@.len() as int) =~= s@);
    out
}

/// How many bytes the UTF-8 form of `s` has, counted no further than `most`.
pub fn byte_len_within(s: &str, most: usize) -> (r: Option<usize>)
    ensures
        match r {
            Some(n) => n == byte_len(s@) && n <= most,
            None => byte_len(s@) > most,
        },
{
    let a = chars_of(s);
    let mut n: usize = 0;
    let mut i: usize = 0;
    while i < a.len()
        invariant
            i <= a.len(),
            a@ == s@,
            n == byte_len(s@.take(i as int)),
            n <= most,
        decreases a.len() - i,
    {
        let w = utf8_width(a[i]);
        proof {
            assert(s@.take(i + 1).drop_last() =~= s@.take(i as int));
            assert(s@.take(i + 1).last() == s@[i as int]);
            lemma_byte_len_prefix(s@, i + 1);
        }
        if w > most - n {
            return None;
        }
        n += w;
        i += 1;
    }
    assert(s@.take(s@.len() as int) =~= s@);
    Some(n)
}

/// A longer text has no fewer bytes.
pub proof fn lemma_byte_len_prefix(s: Seq<char>, i: int)
    requires
        0 <= i <= s.len(),
    ensures
        byte_len(s.take(i)) <= byte_len(s),
    decreases s.len() - i,
{
    if i == s.len() {
        assert(s.take(i) =~= s);
    } else {
        lemma_byte_len_prefix(s, i + 1);
        assert(s.take(i + 1).drop_last() =~= s.take(i));
    }
}

/// Tells whether the UTF-8 form of `s` has more than `n` bytes.
pub fn longer_than(s: &str, n: usize) -> (r: bool)
    ensures
        r == (byte_len(s@) > n),
{
    byte_len_within(s, n).is_none()
}

// ---------------------------------------------------------------------------------------------
// Numbers
// ---------------------------------------------------------------------------------------------
/// The digit that stands for `d`.
pub open spec fn digit_for(d: int) -> char {
    ('0' as u8 + d) as char
}

/// The number that a digit stands for.
pub open spec fn digit_value(c: char) -> int {
    c as int - '0' as int
}

/// A number in decimal digits, without leading zeros.
pub open spec fn decimal(n: nat) -> Seq<char>
    decreases n,
{
    if n < 10 {
        seq![digit_for(n as int)]
    } else {
        decimal(n / 10).push(digit_for((n % 10) as int))
    }
}

/// A number in decimal digits, with a minus sign where it is negative.
pub open spec fn signed_decimal(n: int) -> Seq<char> {
    if n < 0 {
        seq!['-'] + decimal((-n) as nat)
    } else {
        decimal(n as nat)
    }
}

/// Whether a text consists of ASCII digits, at least one.
pub open spec fn is_number(s: Seq<char>) -> bool {
    s.len() > 0 && forall|i: int| 0 <= i < s.len() ==> is_digit(#[trigger] s[i])
}

/// The number that a row of digits stands for.
pub open spec fn number_value(s: Seq<char>) -> int
    decreases s.len(),
{
    if s.len() == 0 {
        0
    } else {
        number_value(s.drop_last()) * 10 + digit_value(s.last())
    }
}

/// The digits of a text, behind a plus sign where one stands first.
pub open spec fn without_plus(s: Seq<char>) -> Seq<char> {
    if s.len() > 0 && s[0] == '+' {
        s.skip(1)
    } else {
        s
    }
}

/// What a text says as an unsigned number of at most `max`: digits, behind an optional plus sign.
pub open spec fn parse_unsigned(s: Seq<char>, max: int) -> Option<int> {
    let d = without_plus(s);
    if is_number(d) && number_value(d) <= max {
        Some(number_value(d))
    } else {
        None
    }
}

/// What a text says as a signed number between `min` and `max`: digits, behind an optional sign.
pub open spec fn parse_signed(s: Seq<char>, min: int, max: int) -> Option<int> {
    if s.len() > 0 && s[0] == '-' {
        if is_number(s.skip(1)) && -number_value(s.skip(1)) >= min {
            Some(-number_value(s.skip(1)))
        } else {
            None
        }
    } else {
        parse_unsigned(s, max)
    }
}

/// A row of digits stands for no negative number.
pub proof fn lemma_number_nonneg(s: Seq<char>)
    requires
        forall|i: int| 0 <= i < s.len() ==> is_digit(#[trigger] s[i]),
    ensures
        number_value(s) >= 0,
    decreases s.len(),
{
    if s.len() > 0 {
        assert forall|i: int| 0 <= i < s.drop_last().len() implies is_digit(
            #[trigger] s.drop_last()[i],
        ) by {
            assert(s.drop_last()[i] == s[i]);
        }
        lemma_number_nonneg(s.drop_last());
        assert(is_digit(s[s.len() - 1]));
    }
}

/// A longer row of digits stands for no smaller number.
pub proof fn lemma_number_prefix(s: Seq<char>, i: int)
    requires
        forall|j: int| 0 <= j < s.len() ==> is_digit(#[trigger] s[j]),
        0 <= i <= s.len(),
    ensures
        number_value(s.take(i)) <= number_value(s),
    decreases s.len() - i,
{
    if i == s.len() {
        assert(s.take(i) =~= s);
    } else {
        lemma_number_prefix(s, i + 1);
        assert(s.take(i + 1).drop_last() =~= s.take(i));
        assert(s.take(i + 1).last() == s[i]);
        assert forall|j: int| 0 <= j < s.take(i).len() implies is_digit(#[trigger] s.take(i)[j]) by {
            assert(s.take(i)[j] == s[j]);
        }
        lemma_number_nonneg(s.take(i));
        assert(is_digit(s[i]));
    }
}

/// Reading a written number gives the number.
pub proof fn lemma_decimal_value(n: nat)
    ensures
        number_value(decimal(n)) == n,
        is_number(decimal(n)),
    decreases n,
{
    reveal_with_fuel(number_value, 2);
    if n < 10 {
        assert(decimal(n).drop_last() =~= Seq::empty());
        assert(decimal(n).last() == digit_for(n as int));
    } else {
        lemma_decimal_value(n / 10);
        let d = decimal(n);
        assert(d.drop_last() =~= decimal(n / 10));
        assert forall|i: int| 0 <= i < d.len() implies is_digit(#[trigger] d[i]) by {
            if i < d.len() - 1 {
                assert(d[i] == decimal(n / 10)[i]);
            }
        }
    }
}

/// The number that the digits from `lo` on stand for, where there is one of at most `max`.
fn digits_value(s: &Vec<char>, lo: usize, max: u64) -> (r: Option<u64>)
    requires
        lo <= s.len(),
    ensures
        match r {
            Some(v) => is_number(s@.skip(lo as int)) && number_value(s@.skip(lo as int)) == v && v
                <= max,
            None => !(is_number(s@.skip(lo as int)) && number_value(s@.skip(lo as int)) <= max),
        },
{
    let ghost d = s@.skip(lo as int);
    if lo == s.len() {
        return None;
    }
    let mut i: usize = lo;
    let mut v: u64 = 0;
    let mut fits: bool = true;
    while i < s.len()
        invariant
            lo <= i <= s.len(),
            lo < s.len(),
            d == s@.skip(lo as int),
            forall|j: int| 0 <= j < i - lo ==> is_digit(#[trigger] d[j]),
            fits ==> v == number_value(d.take(i - lo)) && v <= max,
            !fits ==> number_value(d.take(i - lo)) > max,
        decreases s.len() - i,
    {
        let c = s[i];
        assert(d[i - lo] == c);
        if !digit_char(c) {
            assert(!is_number(d));
            return None;
        }
        proof {
            assert(d.take(i - lo + 1).drop_last() =~= d.take(i - lo));
            assert(d.take(i - lo + 1).last() == c);
            assert forall|j: int| 0 <= j < d.take(i - lo).len() implies is_digit(
                #[trigger] d.take(i - lo)[j],
            ) by {
                assert(d.take(i - lo)[j] == d[j]);
            }
            lemma_number_nonneg(d.take(i - lo));
        }
        if fits {
            let k: u64 = (c as u32 - '0' as u32) as u64;
            let w: u128 = v as u128 * 10 + k as u128;
            if w <= max as u128 {
                v = w as u64;
            } else {
                fits = false;
            }
        }
        i += 1;
    }
    assert(d.take(s.len() - lo) =~= d);
    if fits {
        Some(v)
    } else {
        None
    }
}

/// What `s` says as an unsigned number of at most `max`.
pub fn parse_u64_within(s: &str, max: u64) -> (r: Option<u64>)
    ensures
        match r {
            Some(v) => parse_unsigned(s@, max as int) == Some(v as int),
            None => parse_unsigned(s@, max as int) is None,
        },
{
    let a = chars_of(s);
    assert(a@.skip(0) =~= a@);
    if a.len() > 0 && a[0] == '+' {
        digits_value(&a, 1, max)
    } else {
        digits_value(&a, 0, max)
    }
}

/// What `s` says as a signed number between `min` and `max`.
pub fn parse_i64_within(s: &str, min: i64, max: i64) -> (r: Option<i64>)
    requires
        min <= 0 <= max,
    ensures
        match r {
            Some(v) => parse_signed(s@, min as int, max as int) == Some(v as int) && min <= v <= max,
            None => parse_signed(s@, min as int, max as int) is None,
        },
{
    let a = chars_of(s);
    assert(a@.skip(0) =~= a@);
    if a.len() > 0 && a[0] == '-' {
        let most: u64 = (-(min as i128)) as u64;
        match digits_value(&a, 1, most) {
            Some(v) => Some((-(v as i128)) as i64),
            None => None,
        }
    } else {
        match parse_u64_within(s, max as u64) {
            Some(v) => Some(v as i64),
            None => None,
        }
    }
}

/// `n` in decimal digits.
pub fn wide_decimal_of(n: u128) -> (r: String)
    ensures
        r@ == decimal(n as nat),
    decreases n,
{
    let mut s = if n < 10 {
        String::new()
    } else {
        wide_decimal_of(n / 10)
    };
    let c = (48 + (n % 10) as u8) as char;
    s.push(c);
    proof {
        if n < 10 {
            assert(s@ =~= seq![digit_for(n as int)]);
        }
    }
    s
}

/// `n` in decimal digits.
pub fn decimal_of(n: u64) -> (r: String)
    ensures
        r@ == decimal(n as nat),
{
    wide_decimal_of(n as u128)
}

/// `n` in decimal digits, with a minus sign where it is negative.
pub fn signed_decimal_of(n: i64) -> (r: String)
    ensures
        r@ == signed_decimal(n as int),
{
    if n < 0 {
        let mut s = String::new();
        s.push('-');
        s.append(decimal_of((-(n as i128)) as u64).as_str());
        assert(Seq::<char>::empty().push('-') =~= seq!['-']);
        s
    } else {
        decimal_of(n as u64)
    }
}

} // verus!
