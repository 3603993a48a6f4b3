//! Regular expressions. `regex` does the matching.
use vstd::prelude::*;

use crate::text::{byte_len, texts};

verus! {

/// `regex::Regex`, a compiled regular expression.
#[verifier::external_type_specification]
#[verifier::external_body]
pub struct ExRegex(regex::Regex);

/// Where a match stands in a text, in bytes.
pub struct Span {
    pub start: usize,
    pub end: usize,
}

/// Whether `regex` accepts a pattern.
pub uninterp spec fn regex_valid(pattern: Seq<char>) -> bool;

/// The pattern of a regular expression, which `regex::Regex::as_str` gives back.
pub uninterp spec fn pattern_of(re: regex::Regex) -> Seq<char>;

/// Where the leftmost match of a pattern stands in a text.
pub uninterp spec fn regex_find(pattern: Seq<char>, text: Seq<char>) -> Option<Span>;

/// What the first group of each match of a pattern holds, in the order of the matches.
pub uninterp spec fn regex_groups(pattern: Seq<char>, text: Seq<char>) -> Seq<Seq<char>>;

/// Whether a character means more than itself in a pattern.
pub open spec fn is_meta(c: char) -> bool {
    "\\.+*?()|[]{}^$#&-~"@.contains(c)
}

/// A text as a pattern that matches it literally: a backslash stands before each character that means
/// more than itself.
pub open spec fn regex_literal(text: Seq<char>) -> Seq<char>
    decreases text.len(),
{
    if text.len() == 0 {
        Seq::empty()
    } else if is_meta(text.last()) {
        regex_literal(text.drop_last()) + seq!['\\', text.last()]
    } else {
        regex_literal(text.drop_last()).push(text.last())
    }
}

/// `regex::Regex::new`: compiles a pattern that is accepted.
#[verifier::external_body]
pub(crate) fn new_regex(pattern: &str) -> (r: Option<regex::Regex>)
    ensures
        match r {
            Some(re) => regex_valid(pattern@) && pattern_of(re) == pattern@,
            None => !regex_valid(pattern@),
        },
{
    regex::Regex::new(pattern).ok()
}

/// `regex::Regex::find`: the leftmost match, which lies in the text.
#[verifier::external_body]
pub(crate) fn find_match(re: &regex::Regex, text: &str) -> (r: Option<Span>)
    ensures
        r == regex_find(pattern_of(*re), text@),
        r is Some ==> r->0.start <= r->0.end <= byte_len(text@),
{
    re.find(text).map(|m| Span { start: m.start(), end: m.end() })
}

/// `regex::Regex::captures_iter`: the first group of each match, empty where it took no part.
#[verifier::external_body]
pub(crate) fn first_groups(re: &regex::Regex, text: &str) -> (r: Vec<String>)
    ensures
        texts(r@) == regex_groups(pattern_of(*re), text@),
{
    let group = |c: regex::Captures| c.get(1).map_or(String::new(), |m| m.as_str().to_string());
    re.captures_iter(text).map(group).collect()
}

/// `regex::escape`: the text with a backslash before each character that means more than itself in a
/// pattern.
#[verifier::external_body]
pub(crate) fn escape(text: &str) -> (r: String)
    ensures
        r@ == regex_literal(text@),
{
    regex::escape(text)
}

} // verus!
