//! Cron expressions of five fields, and which scheduled prompts are due at a given minute.
use vstd::prelude::*;
use vstd::string::*;

use crate::models::CronJob;
use crate::pairs::{keys_distinct, pairs_map, put, value_of};
use crate::text::{
    concat2, concat3, cut, first_chars, matches_at, opt_text, parse_u64_within, parse_unsigned, same, split,
    split_on, split_once, take_chars, texts, trim, trimmed, words, words_of,
};
use crate::text_laws::{law_split_joins, lemma_split_whole, lemma_trim_same};

verus! {

// ---------------------------------------------------------------------------------------------
// Fields
// ---------------------------------------------------------------------------------------------
/// What a text says as a `u32`.
pub open spec fn number(s: Seq<char>) -> Option<int> {
    parse_unsigned(s, u32::MAX as int)
}

/// The bounds in front of a step, where `base` says some: all, a range or a single value.
pub open spec fn base_bounds(base: Seq<char>, min: int, max: int) -> Option<(int, int)> {
    if base == "*"@ {
        Some((min, max))
    } else {
        match split_once(base, "-"@) {
            Some((a, b)) => match (number(a), number(b)) {
                (Some(lo), Some(hi)) => Some((lo, hi)),
                _ => None,
            },
            None => match number(base) {
                Some(v) => Some((v, v)),
                None => None,
            },
        }
    }
}

/// What is wrong with a base or a range.
pub open spec fn base_error(base: Seq<char>) -> Seq<char> {
    if split_once(base, "-"@) is Some {
        "bad range: "@ + base
    } else {
        "bad value: "@ + base
    }
}

/// What is wrong with one part of a field, if anything is.
pub open spec fn part_error(part: Seq<char>) -> Option<Seq<char>> {
    let t = trim(part);
    if t.len() == 0 || t == "*"@ {
        None
    } else {
        match split_once(t, "/"@) {
            Some((base, step)) => match number(step) {
                None => Some("bad step: "@ + step),
                Some(s) => if s == 0 {
                    Some("step cannot be 0"@)
                } else if base_bounds(base, 0, 0) is None {
                    Some(base_error(base))
                } else {
                    None
                },
            },
            None => if base_bounds(t, 0, 0) is None {
                Some(base_error(t))
            } else {
                None
            },
        }
    }
}

/// Whether `v` is among the values that one part of a field stands for.
pub open spec fn in_part(part: Seq<char>, min: int, max: int, v: int) -> bool {
    let t = trim(part);
    if t.len() == 0 {
        false
    } else if t == "*"@ {
        min <= v <= max
    } else {
        match split_once(t, "/"@) {
            Some((base, step)) => match (number(step), base_bounds(base, min, max)) {
                (Some(s), Some((lo, hi))) => lo <= v <= hi && (v - lo) % s == 0,
                _ => false,
            },
            None => match base_bounds(t, min, max) {
                Some((lo, hi)) => lo <= v <= hi,
                None => false,
            },
        }
    }
}

/// What is wrong with the first part that something is wrong with.
pub open spec fn parts_error(parts: Seq<Seq<char>>) -> Option<Seq<char>>
    decreases parts.len(),
{
    if parts.len() == 0 {
        None
    } else {
        match parts_error(parts.drop_last()) {
            Some(e) => Some(e),
            None => part_error(parts.last()),
        }
    }
}

/// Whether `v` is among the values that some part stands for.
pub open spec fn in_parts(parts: Seq<Seq<char>>, min: int, max: int, v: int) -> bool {
    exists|i: int| 0 <= i < parts.len() && in_part(#[trigger] parts[i], min, max, v)
}

/// What is wrong with a field, if anything is.
pub open spec fn field_error(field: Seq<char>) -> Option<Seq<char>> {
    parts_error(split(field, ","@))
}

/// Whether `v` is among the values that a field stands for.
pub open spec fn in_field(field: Seq<char>, min: int, max: int, v: int) -> bool {
    in_parts(split(field, ","@), min, max, v)
}

/// Whether the values rise, so that none stands twice.
pub open spec fn rising(v: Seq<u32>) -> bool {
    forall|i: int, j: int| 0 <= i < j < v.len() ==> v[i] < v[j]
}

/// Puts a value in its place, unless it is there.
fn insert_value(set: &mut Vec<u32>, v: u32)
    requires
        rising(old(set)@),
    ensures
        rising(final(set)@),
        forall|x: u32| #[trigger] final(set)@.contains(x) <==> old(set)@.contains(x) || x == v,
{
    let ghost before = set@;
    let mut i: usize = set.len();
    while i > 0 && set[i - 1] > v
        invariant
            i <= set.len(),
            set@ == before,
            rising(before),
            forall|j: int| i <= j < before.len() ==> before[j] > v,
        decreases i,
    {
        i -= 1;
    }
    if i > 0 && set[i - 1] == v {
        assert(before.contains(v)) by {
            assert(before[i - 1] == v);
        }
        return;
    }
    set.insert(i, v);
    proof {
        assert forall|x: u32| #[trigger] set@.contains(x) <==> before.contains(x) || x == v by {
            if set@.contains(x) {
                let k = choose|k: int| 0 <= k < set@.len() && set@[k] == x;
                if k < i {
                    assert(before[k] == x);
                } else if k > i {
                    assert(before[k - 1] == x);
                }
            }
            if before.contains(x) {
                let k = choose|k: int| 0 <= k < before.len() && before[k] == x;
                if k < i {
                    assert(set@[k] == x);
                } else {
                    assert(set@[k + 1] == x);
                }
            }
            if x == v {
                assert(set@[i as int] == x);
            }
        }
    }
}

/// Puts in every `step`-th value from `lo` up to `hi`.
fn insert_steps(set: &mut Vec<u32>, lo: u32, hi: u32, step: u32)
    requires
        rising(old(set)@),
        step > 0,
    ensures
        rising(final(set)@),
        forall|x: u32| #[trigger]
            final(set)@.contains(x) <==> old(set)@.contains(x) || (lo <= x <= hi && (x - lo) % step
                as int == 0),
{
    let ghost before = set@;
    if lo > hi {
        return;
    }
    let mut v: u32 = lo;
    let ghost mut n: int = 0;
    loop
        invariant
            rising(set@),
            before == old(set)@,
            step > 0,
            lo <= v <= hi,
            n >= 0,
            v == lo + n * step,
            forall|x: u32| #[trigger]
                set@.contains(x) <==> before.contains(x) || (lo <= x < v && (x - lo) % step as int
                    == 0),
        decreases hi - v,
    {
        let ghost prior = set@;
        insert_value(set, v);
        proof {
            let s = step as int;
            assert((v - lo) % s == 0) by {
                vstd::arithmetic::div_mod::lemma_mod_multiples_basic(n, s);
            }
            assert forall|x: u32| #[trigger]
                set@.contains(x) <==> before.contains(x) || (lo <= x && x - v < s && (x - lo) % s
                    == 0) by {
                assert(prior.contains(x) <==> before.contains(x) || (lo <= x < v && (x - lo) % s
                    == 0));
                if v < x && x - v < s {
                    let d = x - v;
                    assert(x - lo == s * n + d) by (nonlinear_arith)
                        requires
                            x == v + d,
                            v == lo + n * s,
                    ;
                    vstd::arithmetic::div_mod::lemma_mod_multiples_vanish(n, d, s);
                    vstd::arithmetic::div_mod::lemma_small_mod(d as nat, s as nat);
                }
            }
        }
        if hi - v < step {
            return;
        }
        proof {
            assert((n + 1) * step == n * step + step) by (nonlinear_arith);
            n = n + 1;
        }
        v = v + step;
    }
}

/// The bounds that `base` says, where it says some.
fn bounds_of(base: &str, min: u32, max: u32) -> (r: Result<(u32, u32), String>)
    ensures
        match r {
            Ok(b) => base_bounds(base@, min as int, max as int) == Some((b.0 as int, b.1 as int)),
            Err(e) => base_bounds(base@, min as int, max as int) is None && e@ == base_error(base@),
        },
        (r is Ok) == (base_bounds(base@, 0, 0) is Some),
{
    if same(base, "*") {
        return Ok((min, max));
    }
    let top: u64 = u32::MAX as u64;
    match cut(base, "-") {
        Some((a, b)) => {
            match (parse_u64_within(a.as_str(), top), parse_u64_within(b.as_str(), top)) {
                (Some(lo), Some(hi)) => Ok((lo as u32, hi as u32)),
                _ => Err(concat2("bad range: ", base)),
            }
        },
        None => match parse_u64_within(base, top) {
            Some(v) => Ok((v as u32, v as u32)),
            None => Err(concat2("bad value: ", base)),
        },
    }
}

/// Puts in the values that one part of a field stands for.
fn insert_part(set: &mut Vec<u32>, part: &str, min: u32, max: u32) -> (r: Result<(), String>)
    requires
        rising(old(set)@),
    ensures
        match r {
            Ok(_) => part_error(part@) is None && rising(final(set)@) && forall|x: u32| #[trigger]
                final(set)@.contains(x) <==> old(set)@.contains(x) || in_part(
                    part@,
                    min as int,
                    max as int,
                    x as int,
                ),
            Err(e) => part_error(part@) == Some(e@),
        },
{
    let t = trimmed(part);
    if t.as_str().is_empty() {
        return Ok(());
    }
    if same(t.as_str(), "*") {
        insert_steps(set, min, max, 1);
        return Ok(());
    }
    match cut(t.as_str(), "/") {
        Some((base, step)) => {
            match parse_u64_within(step.as_str(), u32::MAX as u64) {
                None => Err(concat2("bad step: ", step.as_str())),
                Some(s) => {
                    if s == 0 {
                        return Err("step cannot be 0".to_owned());
                    }
                    match bounds_of(base.as_str(), min, max) {
                        Ok((lo, hi)) => {
                            insert_steps(set, lo, hi, s as u32);
                            Ok(())
                        },
                        Err(e) => Err(e),
                    }
                },
            }
        },
        None => match bounds_of(t.as_str(), min, max) {
            Ok((lo, hi)) => {
                insert_steps(set, lo, hi, 1);
                Ok(())
            },
            Err(e) => Err(e),
        },
    }
}

/// An error in an earlier part stays the error of the whole.
proof fn lemma_parts_error(parts: Seq<Seq<char>>, i: int)
    requires
        0 <= i <= parts.len(),
        parts_error(parts.take(i)) is Some,
    ensures
        parts_error(parts) == parts_error(parts.take(i)),
    decreases parts.len() - i,
{
    if i < parts.len() {
        assert(parts.take(i + 1).drop_last() =~= parts.take(i));
        lemma_parts_error(parts, i + 1);
    } else {
        assert(parts.take(i) =~= parts);
    }
}

/// The values that a field stands for, in rising order: parts separated by commas, each of them
/// `*`, a value, a range `a-b`, or one of these with a step behind `/`.
pub fn parse_field(field: &str, min: u32, max: u32) -> (r: Result<Vec<u32>, String>)
    ensures
        match r {
            Ok(v) => field_error(field@) is None && rising(v@) && forall|x: u32| #[trigger]
                v@.contains(x) <==> in_field(field@, min as int, max as int, x as int),
            Err(e) => field_error(field@) == Some(e@),
        },
{
    proof {
        reveal_strlit(",");
    }
    let parts = split_on(field, ",");
    let ghost all = texts(parts@);
    let mut set: Vec<u32> = Vec::new();
    let mut i: usize = 0;
    while i < parts.len()
        invariant
            i <= parts.len(),
            all == texts(parts@),
            all == split(field@, ","@),
            rising(set@),
            parts_error(all.take(i as int)) is None,
            forall|x: u32| #[trigger]
                set@.contains(x) <==> in_parts(all.take(i as int), min as int, max as int, x as int),
        decreases parts.len() - i,
    {
        let ghost prior = set@;
        proof {
            assert(all.take(i + 1).drop_last() =~= all.take(i as int));
        }
        match insert_part(&mut set, parts[i].as_str(), min, max) {
            Ok(_) => {},
            Err(e) => {
                proof {
                    lemma_parts_error(all, i + 1);
                }
                return Err(e);
            },
        }
        proof {
            assert forall|x: u32| #[trigger]
                set@.contains(x) <==> in_parts(all.take(i + 1), min as int, max as int, x as int) by {
                let shorter = all.take(i as int);
                let longer = all.take(i + 1);
                assert(prior.contains(x) <==> in_parts(shorter, min as int, max as int, x as int));
                if in_parts(shorter, min as int, max as int, x as int) {
                    let k = choose|k: int|
                        0 <= k < shorter.len() && in_part(
                            #[trigger] shorter[k],
                            min as int,
                            max as int,
                            x as int,
                        );
                    assert(longer[k] == shorter[k]);
                }
                if in_part(all[i as int], min as int, max as int, x as int) {
                    assert(longer[i as int] == all[i as int]);
                }
                if in_parts(longer, min as int, max as int, x as int) {
                    let k = choose|k: int|
                        0 <= k < longer.len() && in_part(
                            #[trigger] longer[k],
                            min as int,
                            max as int,
                            x as int,
                        );
                    if k < i {
                        assert(shorter[k] == longer[k]);
                    }
                }
            }
        }
        i += 1;
    }
    assert(all.take(all.len() as int) =~= all);
    Ok(set)
}

proof fn lemma_parts_of_both(a: Seq<Seq<char>>, b: Seq<Seq<char>>)
    ensures
        parts_error(a) is None && parts_error(b) is None ==> parts_error(a + b) is None,
    decreases b.len(),
{
    if b.len() > 0 {
        assert((a + b).drop_last() =~= a + b.drop_last());
        lemma_parts_of_both(a, b.drop_last());
    } else {
        assert(a + b =~= a);
    }
}

/// Two fields with a comma between them stand for the values of both, whichever comes first.
pub proof fn law_field_is_union(a: Seq<char>, b: Seq<char>, min: int, max: int, v: int)
    requires
        field_error(a) is None,
        field_error(b) is None,
    ensures
        field_error(a + ","@ + b) is None,
        in_field(a + ","@ + b, min, max, v) == (in_field(a, min, max, v) || in_field(
            b,
            min,
            max,
            v,
        )),
        in_field(a + ","@ + b, min, max, v) == in_field(b + ","@ + a, min, max, v),
{
    lemma_union(a, b, min, max, v);
    lemma_union(b, a, min, max, v);
    lemma_parts_of_both(split(a, ","@), split(b, ","@));
}

proof fn lemma_union(a: Seq<char>, b: Seq<char>, min: int, max: int, v: int)
    ensures
        split(a + ","@ + b, ","@) == split(a, ","@) + split(b, ","@),
        in_field(a + ","@ + b, min, max, v) == (in_field(a, min, max, v) || in_field(
            b,
            min,
            max,
            v,
        )),
{
    reveal_strlit(",");
    assert(","@ =~= seq![',']);
    law_split_joins(a, ',', b);
    let x = split(a, ","@);
    let y = split(b, ","@);
    let all = x + y;
    if in_parts(x, min, max, v) {
        let i = choose|i: int| 0 <= i < x.len() && in_part(#[trigger] x[i], min, max, v);
        assert(all[i] == x[i]);
    }
    if in_parts(y, min, max, v) {
        let i = choose|i: int| 0 <= i < y.len() && in_part(#[trigger] y[i], min, max, v);
        assert(all[x.len() + i] == y[i]);
    }
    if in_parts(all, min, max, v) {
        let i = choose|i: int| 0 <= i < all.len() && in_part(#[trigger] all[i], min, max, v);
        if i < x.len() {
            assert(x[i] == all[i]);
        } else {
            assert(y[i - x.len()] == all[i]);
        }
    }
}

/// A star stands for all values.
pub proof fn law_star_is_all(min: int, max: int, v: int)
    ensures
        field_error("*"@) is None,
        in_field("*"@, min, max, v) == (min <= v <= max),
{
    reveal_strlit("*");
    reveal_strlit(",");
    let s = "*"@;
    assert forall|j: int| 0 <= j implies !#[trigger] matches_at(s, ","@, j) by {
        if j + 1 <= s.len() {
            assert(s.subrange(j, j + 1)[0] == '*');
        }
    }
    lemma_split_whole(s, ","@);
    lemma_trim_same(s);
    let parts = split(s, ","@);
    assert(parts[0] == s);
    assert(parts.drop_last() =~= Seq::empty());
    assert(parts_error(parts.drop_last()) is None);
}

// ---------------------------------------------------------------------------------------------
// Expressions
// ---------------------------------------------------------------------------------------------
/// The least value of each of the five fields.
pub open spec fn field_min(i: int) -> int {
    if i == 2 || i == 3 {
        1
    } else {
        0
    }
}

/// The greatest value of each of the five fields: minute, hour, day of the month, month, day of
/// the week.
pub open spec fn field_max(i: int) -> int {
    if i == 0 {
        59
    } else if i == 1 {
        23
    } else if i == 2 {
        31
    } else if i == 3 {
        12
    } else {
        7
    }
}

/// What is wrong with an expression, if anything is: the number of fields, or else the first
/// field that something is wrong with.
pub open spec fn cron_error(expr: Seq<char>) -> Option<Seq<char>> {
    let f = words(expr);
    if f.len() != 5 {
        Some("cron must have 5 fields: minute hour day-of-month month day-of-week"@)
    } else if field_error(f[0]) is Some {
        field_error(f[0])
    } else if field_error(f[1]) is Some {
        field_error(f[1])
    } else if field_error(f[2]) is Some {
        field_error(f[2])
    } else if field_error(f[3]) is Some {
        field_error(f[3])
    } else {
        field_error(f[4])
    }
}

/// Whether `v` is among the values of the `i`-th field of an expression.
pub open spec fn cron_allows(expr: Seq<char>, i: int, v: int) -> bool {
    in_field(words(expr)[i], field_min(i), field_max(i), v)
}

/// Whether a list holds, in rising order, the values of the `i`-th field of an expression.
pub open spec fn lists_field(v: Seq<u32>, expr: Seq<char>, i: int) -> bool {
    rising(v) && forall|x: u32| #[trigger] v.contains(x) <==> cron_allows(expr, i, x as int)
}

/// The values of the five fields of a cron expression: minute, hour, day of the month, month, day
/// of the week.
pub fn parse_cron(expr: &str) -> (r: Result<
    (Vec<u32>, Vec<u32>, Vec<u32>, Vec<u32>, Vec<u32>),
    String,
>)
    ensures
        match r {
            Ok(p) => cron_error(expr@) is None && lists_field(p.0@, expr@, 0) && lists_field(
                p.1@,
                expr@,
                1,
            ) && lists_field(p.2@, expr@, 2) && lists_field(p.3@, expr@, 3) && lists_field(
                p.4@,
                expr@,
                4,
            ),
            Err(e) => cron_error(expr@) == Some(e@),
        },
{
    let parts = words_of(expr);
    if parts.len() != 5 {
        return Err(
            "cron must have 5 fields: minute hour day-of-month month day-of-week".to_owned(),
        );
    }
    let ghost f = words(expr@);
    assert(f[0] == parts@[0]@ && f[1] == parts@[1]@ && f[2] == parts@[2]@ && f[3] == parts@[3]@
        && f[4] == parts@[4]@);
    let minutes = match parse_field(parts[0].as_str(), 0, 59) {
        Ok(v) => v,
        Err(e) => return Err(e),
    };
    let hours = match parse_field(parts[1].as_str(), 0, 23) {
        Ok(v) => v,
        Err(e) => return Err(e),
    };
    let days = match parse_field(parts[2].as_str(), 1, 31) {
        Ok(v) => v,
        Err(e) => return Err(e),
    };
    let months = match parse_field(parts[3].as_str(), 1, 12) {
        Ok(v) => v,
        Err(e) => return Err(e),
    };
    let weekdays = match parse_field(parts[4].as_str(), 0, 7) {
        Ok(v) => v,
        Err(e) => return Err(e),
    };
    Ok((minutes, hours, days, months, weekdays))
}

/// Checks a cron expression: five fields of the supported syntax.
pub fn validate(expr: &str) -> (r: Result<(), String>)
    ensures
        match r {
            Ok(_) => cron_error(expr@) is None,
            Err(e) => cron_error(expr@) == Some(e@),
        },
{
    match parse_cron(expr) {
        Ok(_) => Ok(()),
        Err(e) => Err(e),
    }
}

// ---------------------------------------------------------------------------------------------
// The scheduler
// ---------------------------------------------------------------------------------------------
/// A point in local time, as far as cron expressions look at it. `weekday` counts from Sunday, 0.
#[derive(Clone, Copy)]
pub struct Moment {
    pub minute: u32,
    pub hour: u32,
    pub day: u32,
    pub month: u32,
    pub weekday: u32,
}

/// Whether an expression stands for a point in time: each of the five fields has to.
pub open spec fn cron_matches(now: Moment, expr: Seq<char>) -> bool {
    &&& cron_error(expr) is None
    &&& cron_allows(expr, 0, now.minute as int)
    &&& cron_allows(expr, 1, now.hour as int)
    &&& cron_allows(expr, 2, now.day as int)
    &&& cron_allows(expr, 3, now.month as int)
    &&& cron_allows(expr, 4, if now.weekday == 7 {
        0
    } else {
        now.weekday as int
    })
}

/// Tells whether `v` is in a list.
fn lists(list: &Vec<u32>, v: u32) -> (r: bool)
    ensures
        r == list@.contains(v),
{
    let mut i: usize = 0;
    while i < list.len()
        invariant
            i <= list.len(),
            forall|j: int| 0 <= j < i ==> list@[j] != v,
        decreases list.len() - i,
    {
        if list[i] == v {
            return true;
        }
        i += 1;
    }
    false
}

/// Tells whether an expression stands for a point in time. One that does not parse stands for
/// none.
pub fn matches(now: &Moment, expr: &str) -> (r: bool)
    ensures
        r == cron_matches(*now, expr@),
{
    match parse_cron(expr) {
        Ok((minutes, hours, days, months, weekdays)) => {
            let weekday: u32 = if now.weekday == 7 {
                0
            } else {
                now.weekday
            };
            lists(&minutes, now.minute) && lists(&hours, now.hour) && lists(&days, now.day)
                && lists(&months, now.month) && lists(&weekdays, weekday)
        },
        Err(_) => false,
    }
}

/// For each job the minute at which it last fired.
pub struct Fired {
    pub last: Vec<(String, String)>,
}

impl Fired {
    /// From job ids to minutes.
    pub open spec fn view(&self) -> Map<Seq<char>, Seq<char>> {
        pairs_map(self.last@)
    }

    /// No job is listed twice.
    pub open spec fn wf(&self) -> bool {
        keys_distinct(self.last@)
    }

    /// Nothing has fired yet.
    pub fn new() -> (r: Fired)
        ensures
            r.wf(),
            r@ == Map::<Seq<char>, Seq<char>>::empty(),
    {
        Fired { last: Vec::new() }
    }

    /// Decides whether a job fires at `now`, whose minute is named `minute_key`, and notes it if
    /// so: its expression stands for `now`, and it has not fired in this minute.
    pub fn fire(&mut self, job: &CronJob, now: &Moment, minute_key: &str) -> (r: bool)
        requires
            old(self).wf(),
        ensures
            final(self).wf(),
            r == fires(old(self)@, job.id@, job.cron@, *now, minute_key@),
            final(self)@ == after_asking(old(self)@, job.id@, job.cron@, *now, minute_key@),
    {
        if !matches(now, job.cron.as_str()) {
            return false;
        }
        match value_of(&self.last, job.id.as_str()) {
            Some(key) => {
                if same(key, minute_key) {
                    return false;
                }
            },
            None => {},
        }
        put(&mut self.last, job.id.clone(), minute_key.to_owned());
        true
    }
}

/// Whether a job fires at `now`, in the minute named `minute_key`, when `fired` tells what fired
/// when.
pub open spec fn fires(
    fired: Map<Seq<char>, Seq<char>>,
    id: Seq<char>,
    cron: Seq<char>,
    now: Moment,
    minute_key: Seq<char>,
) -> bool {
    cron_matches(now, cron) && !(fired.dom().contains(id) && fired[id] == minute_key)
}

/// What fired when, once the job has been asked after.
pub open spec fn after_asking(
    fired: Map<Seq<char>, Seq<char>>,
    id: Seq<char>,
    cron: Seq<char>,
    now: Moment,
    minute_key: Seq<char>,
) -> Map<Seq<char>, Seq<char>> {
    if fires(fired, id, cron, now, minute_key) {
        fired.insert(id, minute_key)
    } else {
        fired
    }
}

/// A job with what the table of jobs says of it: whether it is switched on, and when it last fired.
pub struct Scheduled {
    pub job: CronJob,
    pub enabled: bool,
    pub last_fired: Option<String>,
}

/// What a round of the scheduler looks at in a job, and what it changes.
pub struct JobModel {
    pub id: Seq<char>,
    pub session_id: Seq<char>,
    pub cron: Seq<char>,
    pub prompt: Seq<char>,
    pub recurring: bool,
    pub created_at: Seq<char>,
    pub updated_at: Seq<char>,
    pub enabled: bool,
    pub last_fired: Option<Seq<char>>,
}

/// The jobs as a round of the scheduler sees them.
pub open spec fn job_models(v: Seq<Scheduled>) -> Seq<JobModel> {
    Seq::new(
        v.len(),
        |i: int|
            JobModel {
                id: v[i].job.id@,
                session_id: v[i].job.session_id@,
                cron: v[i].job.cron@,
                prompt: v[i].job.prompt@,
                recurring: v[i].job.recurring,
                created_at: v[i].job.created_at@,
                updated_at: v[i].job.updated_at@,
                enabled: v[i].enabled,
                last_fired: opt_text(v[i].last_fired),
            },
    )
}

/// What fired when, once the first `n` jobs have been asked after. A job that is switched off is not.
pub open spec fn after_jobs(
    fired: Map<Seq<char>, Seq<char>>,
    jobs: Seq<JobModel>,
    now: Moment,
    minute_key: Seq<char>,
    n: int,
) -> Map<Seq<char>, Seq<char>>
    decreases n,
{
    if n <= 0 {
        fired
    } else {
        let before = after_jobs(fired, jobs, now, minute_key, n - 1);
        if jobs[n - 1].enabled {
            after_asking(before, jobs[n - 1].id, jobs[n - 1].cron, now, minute_key)
        } else {
            before
        }
    }
}

/// Whether the `i`-th job fires in a round.
pub open spec fn is_due(
    fired: Map<Seq<char>, Seq<char>>,
    jobs: Seq<JobModel>,
    now: Moment,
    minute_key: Seq<char>,
    i: int,
) -> bool {
    jobs[i].enabled && fires(
        after_jobs(fired, jobs, now, minute_key, i),
        jobs[i].id,
        jobs[i].cron,
        now,
        minute_key,
    )
}

/// The places of the jobs among the first `n` that fire in a round.
pub open spec fn due_jobs(
    fired: Map<Seq<char>, Seq<char>>,
    jobs: Seq<JobModel>,
    now: Moment,
    minute_key: Seq<char>,
    n: int,
) -> Seq<int>
    decreases n,
{
    if n <= 0 {
        Seq::empty()
    } else {
        let before = due_jobs(fired, jobs, now, minute_key, n - 1);
        if is_due(fired, jobs, now, minute_key, n - 1) {
            before.push(n - 1)
        } else {
            before
        }
    }
}

/// The jobs that are left of the first `n` behind a round: one that fired notes when, unless it was to
/// fire only once, and then it goes.
pub open spec fn jobs_left(
    fired: Map<Seq<char>, Seq<char>>,
    jobs: Seq<JobModel>,
    now: Moment,
    minute_key: Seq<char>,
    stamp: Seq<char>,
    n: int,
) -> Seq<JobModel>
    decreases n,
{
    if n <= 0 {
        Seq::empty()
    } else {
        let before = jobs_left(fired, jobs, now, minute_key, stamp, n - 1);
        if !is_due(fired, jobs, now, minute_key, n - 1) {
            before.push(jobs[n - 1])
        } else if jobs[n - 1].recurring {
            before.push(JobModel { last_fired: Some(stamp), ..jobs[n - 1] })
        } else {
            before
        }
    }
}

/// A job that fired: where its prompt goes.
pub struct DueJob {
    pub id: String,
    pub session_id: String,
    pub prompt: String,
    pub recurring: bool,
}

/// Whether jobs are those at the given places.
pub open spec fn are_due(jobs: Seq<JobModel>, places: Seq<int>, due: Seq<DueJob>) -> bool {
    &&& due.len() == places.len()
    &&& forall|m: int|
        0 <= m < places.len() ==> {
            let j = jobs[#[trigger] places[m]];
            due[m].id@ == j.id && due[m].session_id@ == j.session_id && due[m].prompt@ == j.prompt
                && due[m].recurring == j.recurring
        }
}

impl Fired {
    /// A round of the scheduler at `now`, whose minute is named `minute_key`: which jobs fire, and which
    /// are left. `stamp` is noted as the time at which they fired.
    pub fn tick(
        &mut self,
        jobs: Vec<Scheduled>,
        now: &Moment,
        minute_key: &str,
        stamp: &str,
    ) -> (r: (Vec<DueJob>, Vec<Scheduled>))
        requires
            old(self).wf(),
        ensures
            final(self).wf(),
            final(self)@ == after_jobs(
                old(self)@,
                job_models(jobs@),
                *now,
                minute_key@,
                jobs@.len() as int,
            ),
            are_due(
                job_models(jobs@),
                due_jobs(old(self)@, job_models(jobs@), *now, minute_key@, jobs@.len() as int),
                r.0@,
            ),
            job_models(r.1@) == jobs_left(
                old(self)@,
                job_models(jobs@),
                *now,
                minute_key@,
                stamp@,
                jobs@.len() as int,
            ),
    {
        let ghost start = self@;
        let ghost all = job_models(jobs@);
        let ghost total = jobs@.len() as int;
        let mut due: Vec<DueJob> = Vec::new();
        let mut left: Vec<Scheduled> = Vec::new();
        let mut i: usize = 0;
        assert(job_models(left@) =~= Seq::empty());
        while i < jobs.len()
            invariant
                i <= jobs.len(),
                self.wf(),
                start == old(self)@,
                all == job_models(jobs@),
                total == jobs@.len(),
                self@ == after_jobs(start, all, *now, minute_key@, i as int),
                are_due(all, due_jobs(start, all, *now, minute_key@, i as int), due@),
                job_models(left@) == jobs_left(
                    start,
                    all,
                    *now,
                    minute_key@,
                    stamp@,
                    i as int,
                ),
                forall|m: int|
                    0 <= m < due_jobs(start, all, *now, minute_key@, i as int).len() ==> 0
                        <= #[trigger] due_jobs(start, all, *now, minute_key@, i as int)[m] < i,
            decreases jobs.len() - i,
        {
            let ghost places = due_jobs(start, all, *now, minute_key@, i as int);
            let ghost before = due@;
            let ghost kept = job_models(left@);
            let s = &jobs[i];
            let mut last_fired = match &s.last_fired {
                Some(t) => Some(t.clone()),
                None => None,
            };
            let fires_now = s.enabled && self.fire(&s.job, now, minute_key);
            if fires_now {
                due.push(
                    DueJob {
                        id: s.job.id.clone(),
                        session_id: s.job.session_id.clone(),
                        prompt: s.job.prompt.clone(),
                        recurring: s.job.recurring,
                    },
                );
                proof {
                    let next = places.push(i as int);
                    assert forall|m: int| 0 <= m < next.len() implies ({
                        let j = all[#[trigger] next[m]];
                        due@[m].id@ == j.id && due@[m].session_id@ == j.session_id
                            && due@[m].prompt@ == j.prompt && due@[m].recurring == j.recurring
                    }) by {
                        if m < places.len() {
                            assert(next[m] == places[m]);
                            assert(due@[m] == before[m]);
                        }
                    }
                }
                last_fired = Some(stamp.to_owned());
            }
            if !fires_now || s.job.recurring {
                left.push(
                    Scheduled {
                        job: CronJob {
                            id: s.job.id.clone(),
                            session_id: s.job.session_id.clone(),
                            cron: s.job.cron.clone(),
                            prompt: s.job.prompt.clone(),
                            recurring: s.job.recurring,
                            created_at: s.job.created_at.clone(),
                            updated_at: s.job.updated_at.clone(),
                        },
                        enabled: s.enabled,
                        last_fired,
                    },
                );
                assert(job_models(left@) =~= kept.push(
                    JobModel { last_fired: opt_text(left@.last().last_fired), ..all[i as int] },
                ));
            }
            i += 1;
        }
        (due, left)
    }
}

/// A round of the scheduler: which jobs there are, and when it is.
pub struct Round {
    pub jobs: Seq<JobModel>,
    pub now: Moment,
}

/// What fired when, behind rounds in one minute.
pub open spec fn after_rounds(
    fired: Map<Seq<char>, Seq<char>>,
    rounds: Seq<Round>,
    minute_key: Seq<char>,
) -> Map<Seq<char>, Seq<char>>
    decreases rounds.len(),
{
    if rounds.len() == 0 {
        fired
    } else {
        let before = after_rounds(fired, rounds.drop_last(), minute_key);
        let last = rounds.last();
        after_jobs(before, last.jobs, last.now, minute_key, last.jobs.len() as int)
    }
}

proof fn lemma_still_fired(
    fired: Map<Seq<char>, Seq<char>>,
    jobs: Seq<JobModel>,
    now: Moment,
    minute_key: Seq<char>,
    n: int,
    id: Seq<char>,
)
    requires
        fired.dom().contains(id),
        fired[id] == minute_key,
    ensures
        after_jobs(fired, jobs, now, minute_key, n).dom().contains(id),
        after_jobs(fired, jobs, now, minute_key, n)[id] == minute_key,
    decreases n,
{
    if n > 0 {
        lemma_still_fired(fired, jobs, now, minute_key, n - 1, id);
    }
}

/// A job fires at most once in a minute: behind any number of rounds under the same minute, whatever
/// other jobs fired in them, it stays silent.
pub proof fn law_fires_once_a_minute(
    fired: Map<Seq<char>, Seq<char>>,
    id: Seq<char>,
    cron: Seq<char>,
    now: Moment,
    later: Moment,
    minute_key: Seq<char>,
    rounds: Seq<Round>,
)
    requires
        fires(fired, id, cron, now, minute_key),
    ensures
        !fires(
            after_rounds(after_asking(fired, id, cron, now, minute_key), rounds, minute_key),
            id,
            cron,
            later,
            minute_key,
        ),
{
    lemma_silent(after_asking(fired, id, cron, now, minute_key), rounds, minute_key, id);
}

proof fn lemma_silent(
    fired: Map<Seq<char>, Seq<char>>,
    rounds: Seq<Round>,
    minute_key: Seq<char>,
    id: Seq<char>,
)
    requires
        fired.dom().contains(id),
        fired[id] == minute_key,
    ensures
        after_rounds(fired, rounds, minute_key).dom().contains(id),
        after_rounds(fired, rounds, minute_key)[id] == minute_key,
    decreases rounds.len(),
{
    if rounds.len() > 0 {
        lemma_silent(fired, rounds.drop_last(), minute_key, id);
        let last = rounds.last();
        lemma_still_fired(
            after_rounds(fired, rounds.drop_last(), minute_key),
            last.jobs,
            last.now,
            minute_key,
            last.jobs.len() as int,
            id,
        );
    }
}

proof fn lemma_left_from(
    fired: Map<Seq<char>, Seq<char>>,
    jobs: Seq<JobModel>,
    now: Moment,
    minute_key: Seq<char>,
    stamp: Seq<char>,
    n: int,
)
    requires
        0 <= n <= jobs.len(),
    ensures
        forall|k: int|
            0 <= k < jobs_left(fired, jobs, now, minute_key, stamp, n).len() ==> exists|j: int|
                0 <= j < n && (#[trigger] jobs[j]).id == (#[trigger] jobs_left(
                    fired,
                    jobs,
                    now,
                    minute_key,
                    stamp,
                    n,
                )[k]).id && (!is_due(fired, jobs, now, minute_key, j) || jobs[j].recurring),
    decreases n,
{
    if n > 0 {
        let before = jobs_left(fired, jobs, now, minute_key, stamp, n - 1);
        let r = jobs_left(fired, jobs, now, minute_key, stamp, n);
        lemma_left_from(fired, jobs, now, minute_key, stamp, n - 1);
        assert forall|k: int| 0 <= k < r.len() implies exists|j: int|
            0 <= j < n && (#[trigger] jobs[j]).id == (#[trigger] r[k]).id && (!is_due(
                fired,
                jobs,
                now,
                minute_key,
                j,
            ) || jobs[j].recurring) by {
            if k < before.len() {
                assert(r[k] == before[k]);
                let j = choose|j: int|
                    0 <= j < n - 1 && (#[trigger] jobs[j]).id == before[k].id && (!is_due(
                        fired,
                        jobs,
                        now,
                        minute_key,
                        j,
                    ) || jobs[j].recurring);
                assert(jobs[j].id == r[k].id);
            } else {
                assert(jobs[n - 1].id == r[k].id);
            }
        }
    }
}

/// A job that is to fire only once goes when it fires.
pub proof fn law_one_time_job_goes(
    fired: Map<Seq<char>, Seq<char>>,
    jobs: Seq<JobModel>,
    now: Moment,
    minute_key: Seq<char>,
    stamp: Seq<char>,
    i: int,
    k: int,
)
    requires
        0 <= i < jobs.len(),
        is_due(fired, jobs, now, minute_key, i),
        !jobs[i].recurring,
        forall|a: int, b: int|
            0 <= a < b < jobs.len() ==> (#[trigger] jobs[a]).id != (#[trigger] jobs[b]).id,
        0 <= k < jobs_left(fired, jobs, now, minute_key, stamp, jobs.len() as int).len(),
    ensures
        jobs_left(fired, jobs, now, minute_key, stamp, jobs.len() as int)[k].id != jobs[i].id,
{
    let n = jobs.len() as int;
    let r = jobs_left(fired, jobs, now, minute_key, stamp, n);
    lemma_left_from(fired, jobs, now, minute_key, stamp, n);
    let j = choose|j: int|
        0 <= j < n && (#[trigger] jobs[j]).id == r[k].id && (!is_due(
            fired,
            jobs,
            now,
            minute_key,
            j,
        ) || jobs[j].recurring);
    if j < i {
        assert(jobs[j].id != jobs[i].id);
    } else if i < j {
        assert(jobs[i].id != jobs[j].id);
    }
}

/// Only a job whose expression parses fires.
pub proof fn law_invalid_expression_never_fires(
    fired: Map<Seq<char>, Seq<char>>,
    id: Seq<char>,
    cron: Seq<char>,
    now: Moment,
    minute_key: Seq<char>,
)
    requires
        cron_error(cron) is Some,
    ensures
        !fires(fired, id, cron, now, minute_key),
{
}

/// The prompt that an agent gets when a job fires.
pub fn fired_prompt(prompt: &str) -> (r: String)
    ensures
        r@ == "⏰ 定时任务："@ + prompt@,
{
    concat2("⏰ 定时任务：", prompt)
}

/// What the user is told when a fired job is through: title and text.
pub open spec fn notification(
    session_title: Option<Seq<char>>,
    prompt: Seq<char>,
    error: Option<Seq<char>>,
) -> (Seq<char>, Seq<char>) {
    let summary = first_chars(prompt, 50);
    let body = match session_title {
        Some(t) => if t.len() > 0 {
            "["@ + t + "] "@ + summary
        } else {
            summary
        },
        None => summary,
    };
    match error {
        None => ("定时任务完成"@, body),
        Some(e) => ("定时任务失败"@, body + "\n"@ + e),
    }
}

/// What the user is told when a fired job is through: the title says whether it failed, the text
/// holds the session's title, the first fifty characters of the prompt, and the error.
pub fn fired_notification(
    session_title: &Option<String>,
    prompt: &str,
    result: &Result<(), String>,
) -> (r: (String, String))
    ensures
        (r.0@, r.1@) == notification(
            opt_text(*session_title),
            prompt@,
            match *result {
                Ok(_) => None,
                Err(e) => Some(e@),
            },
        ),
{
    let summary = take_chars(prompt, 50);
    let mut body = match session_title {
        Some(t) => {
            if t.as_str().is_empty() {
                summary
            } else {
                let mut s = concat3("[", t.as_str(), "] ");
                s.append(summary.as_str());
                s
            }
        },
        None => summary,
    };
    match result {
        Ok(_) => ("定时任务完成".to_owned(), body),
        Err(e) => {
            body.append("\n");
            body.append(e.as_str());
            ("定时任务失败".to_owned(), body)
        },
    }
}

} // verus!
