//! Points in time as texts.
use vstd::prelude::*;
use vstd::string::*;

use crate::order::{goes_before, text_before};
use crate::text::{contains, ends_with, opt_text, strip_suffix, without_suffix};

verus! {

/// The second that a text in the format of RFC 3339 names, from the start of 1970 in UTC on, as `chrono`
/// reads it.
pub uninterp spec fn rfc3339_seconds(iso: Seq<char>) -> Option<int>;

/// A second in UTC, to the minute, as `chrono` writes it; nothing where it lies too far off.
pub uninterp spec fn minute_text(seconds: int) -> Option<Seq<char>>;

/// A text in the format of RFC 3339 in UTC, to the minute.
pub open spec fn utc_minutes(iso: Seq<char>) -> Option<Seq<char>> {
    match rfc3339_seconds(iso) {
        Some(seconds) => minute_text(seconds),
        None => None,
    }
}

/// `chrono::Utc::now` in the form of `DateTime::to_rfc3339_opts` with milliseconds: the present time.
/// Which it is depends on the clock; it always carries a fraction and ends in `Z`.
#[verifier::external_body]
pub fn now_iso() -> (r: String)
    ensures
        ends_with(r@, "Z"@),
        contains(r@, "."@),
{
    chrono::Utc::now().to_rfc3339_opts(chrono::SecondsFormat::Millis, true)
}

/// `chrono::DateTime::parse_from_rfc3339`, as seconds. What comes out is named; nothing does where the
/// text is no such time.
#[verifier::external_body]
fn seconds_of(iso: &str) -> (r: Option<i64>)
    ensures
        (match r {
            Some(n) => Some(n as int),
            None => None,
        }) == rfc3339_seconds(iso@),
{
    chrono::DateTime::parse_from_rfc3339(iso).ok().map(|t| t.timestamp())
}

/// `chrono::DateTime::format` of a second in UTC, as `%Y-%m-%d %H:%M`. What comes out is named; nothing
/// does where `chrono` has no date for the second.
#[verifier::external_body]
fn format_minute(seconds: i64) -> (r: Option<String>)
    ensures
        opt_text(r) == minute_text(seconds as int),
{
    chrono::DateTime::from_timestamp(seconds, 0).map(|t| t.format("%Y-%m-%d %H:%M").to_string())
}

fn to_utc_minutes(iso: &str) -> (r: Option<String>)
    ensures
        opt_text(r) == utc_minutes(iso@),
{
    match seconds_of(iso) {
        Some(seconds) => format_minute(seconds),
        None => None,
    }
}

/// A time as it is shown: what was read, or the text itself where that failed.
pub fn shown_or(read: Option<String>, iso: &str) -> (r: String)
    ensures
        r@ == (match opt_text(read) {
            Some(s) => s,
            None => iso@,
        }),
{
    match read {
        Some(s) => s,
        None => iso.to_owned(),
    }
}

/// A time as it is shown, in UTC and to the minute. A text that is no time is shown as it is.
pub fn iso_to_display(iso: &str) -> (r: String)
    ensures
        r@ == (match utc_minutes(iso@) {
            Some(s) => s,
            None => iso@,
        }),
{
    shown_or(to_utc_minutes(iso), iso)
}

/// A time in UTC without the sign of the zone. Texts of this form go by time whatever their precision: a
/// fraction of a second stands behind the second, where the sign of the zone would go behind both.
pub open spec fn time_key(iso: Seq<char>) -> Seq<char> {
    match strip_suffix(iso, "Z"@) {
        Some(s) => s,
        None => iso,
    }
}

/// Whether a time in UTC goes before another.
pub open spec fn is_earlier(a: Seq<char>, b: Seq<char>) -> bool {
    text_before(time_key(a), time_key(b))
}

/// A time in UTC without the sign of the zone.
pub fn key_of(iso: &str) -> (r: String)
    ensures
        r@ == time_key(iso@),
{
    match without_suffix(iso, "Z") {
        Some(s) => s,
        None => iso.to_owned(),
    }
}

/// Tells whether a time in UTC goes before another.
pub fn earlier(a: &str, b: &str) -> (r: bool)
    ensures
        r == is_earlier(a@, b@),
{
    goes_before(key_of(a).as_str(), key_of(b).as_str())
}

proof fn lemma_same_head(h: Seq<char>, a: Seq<char>, b: Seq<char>)
    ensures
        text_before(h + a, h + b) == text_before(a, b),
    decreases h.len(),
{
    if h.len() > 0 {
        lemma_same_head(h.skip(1), a, b);
        assert((h + a).skip(1) =~= h.skip(1) + a);
        assert((h + b).skip(1) =~= h.skip(1) + b);
        assert((h + a)[0] == h[0] && (h + b)[0] == h[0]);
    } else {
        assert(h + a =~= a);
        assert(h + b =~= b);
    }
}

proof fn lemma_heads_decide(g: Seq<char>, h: Seq<char>, a: Seq<char>, b: Seq<char>)
    requires
        g.len() == h.len(),
        text_before(g, h),
    ensures
        text_before(g + a, h + b),
    decreases g.len(),
{
    if g.len() > 0 {
        assert((g + a).skip(1) =~= g.skip(1) + a);
        assert((h + b).skip(1) =~= h.skip(1) + b);
        assert((g + a)[0] == g[0] && (h + b)[0] == h[0]);
        if text_before(g.skip(1), h.skip(1)) {
            lemma_heads_decide(g.skip(1), h.skip(1), a, b);
        }
    }
}

proof fn lemma_key(t: Seq<char>)
    ensures
        time_key(t + "Z"@) == t,
{
    reveal_strlit("Z");
    let s = t + "Z"@;
    let n = t.len() as int;
    assert(s.subrange(n, n + 1) =~= "Z"@);
    assert(s.take(n) =~= t);
}

/// Times in UTC of different precision are ordered by time: one of a second goes before one of a fraction
/// of that second, and both go before those of a later second.
pub proof fn law_precision_keeps_the_order(g: Seq<char>, h: Seq<char>, a: Seq<char>, b: Seq<char>)
    requires
        g.len() == h.len(),
        text_before(g, h),
    ensures
        is_earlier(g + "Z"@, g + "."@ + a + "Z"@),
        is_earlier(g + "Z"@, h + "Z"@),
        is_earlier(g + "Z"@, h + "."@ + b + "Z"@),
        is_earlier(g + "."@ + a + "Z"@, h + "Z"@),
        is_earlier(g + "."@ + a + "Z"@, h + "."@ + b + "Z"@),
        !is_earlier(g + "."@ + a + "Z"@, g + "Z"@),
{
    reveal_strlit(".");
    let none = Seq::<char>::empty();
    let x = "."@ + a;
    let y = "."@ + b;
    assert(g + "."@ + a =~= g + x);
    assert(h + "."@ + b =~= h + y);
    assert(g + none =~= g);
    assert(h + none =~= h);
    lemma_key(g);
    lemma_key(h);
    lemma_key(g + x);
    lemma_key(h + y);
    lemma_same_head(g, none, x);
    lemma_same_head(g, x, none);
    lemma_heads_decide(g, h, none, none);
    lemma_heads_decide(g, h, none, y);
    lemma_heads_decide(g, h, x, none);
    lemma_heads_decide(g, h, x, y);
}

} // verus!
