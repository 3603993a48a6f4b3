//! Keeping secrets out of the logs.
use vstd::prelude::*;
use vstd::string::*;

use crate::text::{chars_of, slice};

verus! {

/// What a log may show of a key: of more than seven characters the first three and the last four,
/// of fewer the first one, of none nothing.
pub open spec fn redacted(key: Seq<char>) -> Seq<char> {
    if key.len() == 0 {
        Seq::empty()
    } else if key.len() > 7 {
        key.take(3) + "..."@ + key.skip(key.len() - 4)
    } else {
        key.take(1) + "..."@
    }
}

/// Masks an API key for a log.
pub fn redact_api_key(key: &str) -> (r: String)
    ensures
        r@ == redacted(key@),
{
    let a = chars_of(key);
    if a.len() == 0 {
        return String::new();
    }
    if a.len() > 7 {
        let mut out = slice(&a, 0, 3);
        out.append("...");
        out.append(slice(&a, a.len() - 4, a.len()).as_str());
        assert(a@.subrange(0, 3) =~= key@.take(3));
        assert(a@.subrange(a.len() - 4, a.len() as int) =~= key@.skip(key@.len() - 4));
        out
    } else {
        let mut out = slice(&a, 0, 1);
        out.append("...");
        assert(a@.subrange(0, 1) =~= key@.take(1));
        out
    }
}

/// A masked key has at most ten characters, and keys that agree at their visible ends are masked
/// alike: nothing between the ends shows.
pub proof fn law_redaction_hides_the_middle(a: Seq<char>, b: Seq<char>)
    requires
        a.len() > 7,
        b.len() > 7,
        a.take(3) == b.take(3),
        a.skip(a.len() - 4) == b.skip(b.len() - 4),
    ensures
        redacted(a) == redacted(b),
        redacted(a).len() == 10,
{
    reveal_strlit("...");
}

/// Of a short key no more shows than its first character.
pub proof fn law_short_key_shows_one_character(a: Seq<char>, b: Seq<char>)
    requires
        0 < a.len() <= 7,
        0 < b.len() <= 7,
        a[0] == b[0],
    ensures
        redacted(a) == redacted(b),
{
    assert(a.take(1) =~= b.take(1));
}

} // verus!
