//! A job fires when its expression says so, and every job that is due does.
use vstd::prelude::*;
use vstd::string::*;

use crate::cron_scheduler::{
    after_jobs, cron_matches, due_jobs, field_error, in_field, in_part, in_parts, is_due, jobs_left,
    number, part_error, parts_error, JobModel, Moment,
};
use crate::text::{
    decimal, is_digit, is_space, lemma_decimal_value, matches_at, split_once, trim, words,
};
use crate::text_laws::{lemma_not_found, lemma_split_whole, lemma_trim_same};
use crate::word_laws::{law_every_word_is_found, law_number_round_trip, law_sides_of_the_first_place};

verus! {

// ---------------------------------------------------------------------------------------------
// Fields
// ---------------------------------------------------------------------------------------------
/// Whether a text holds only digits and the signs of a range or a step.
pub open spec fn is_field_text(s: Seq<char>) -> bool {
    s.len() > 0 && forall|i: int|
        0 <= i < s.len() ==> is_digit(#[trigger] s[i]) || s[i] == '-' || s[i] == '/' || s[i] == '*'
}

proof fn lemma_one_part(s: Seq<char>, min: int, max: int, v: int)
    requires
        is_field_text(s),
    ensures
        in_field(s, min, max, v) == in_part(s, min, max, v),
        field_error(s) == part_error(s),
        trim(s) == s,
        forall|i: int| 0 <= i < s.len() ==> !is_space(#[trigger] s[i]),
{
    reveal_strlit(",");
    assert forall|i: int| 0 <= i < s.len() implies !is_space(#[trigger] s[i]) by {
        assert(is_digit(s[i]) || s[i] == '-' || s[i] == '/' || s[i] == '*');
    }
    assert forall|j: int| 0 <= j implies !#[trigger] matches_at(s, ","@, j) by {
        if matches_at(s, ","@, j) {
            assert(s.subrange(j, j + 1)[0] == ","@[0]);
            assert(is_digit(s[j]) || s[j] == '-' || s[j] == '/' || s[j] == '*');
        }
    }
    lemma_split_whole(s, ","@);
    let parts = seq![s];
    assert(parts[0] == s);
    if in_parts(parts, min, max, v) {
        let i = choose|i: int| 0 <= i < parts.len() && in_part(#[trigger] parts[i], min, max, v);
        assert(i == 0);
    }
    if in_part(s, min, max, v) {
        assert(in_part(parts[0], min, max, v));
    }
    assert(parts.drop_last() =~= Seq::empty());
    assert(parts_error(parts.drop_last()) is None);
    assert(parts.last() == s);
    assert(!is_space(s[0]));
    assert(!is_space(s[s.len() - 1]));
    lemma_trim_same(s);
}

proof fn lemma_sign_missing(s: Seq<char>, sign: Seq<char>)
    requires
        sign.len() == 1,
        forall|i: int| 0 <= i < s.len() ==> #[trigger] s[i] != sign[0],
    ensures
        split_once(s, sign) is None,
{
    assert forall|j: int| 0 <= j implies !#[trigger] matches_at(s, sign, j) by {
        if matches_at(s, sign, j) {
            assert(s.subrange(j, j + 1)[0] == sign[0]);
            assert(s[j] != sign[0]);
        }
    }
    lemma_not_found(s, sign, 0);
}

proof fn lemma_sign_first(a: Seq<char>, sign: Seq<char>, b: Seq<char>)
    requires
        sign.len() == 1,
        forall|i: int| 0 <= i < a.len() ==> #[trigger] a[i] != sign[0],
    ensures
        split_once(a + sign + b, sign) == Some((a, b)),
{
    let s = a + sign + b;
    assert forall|j: int| 0 <= j < a.len() implies !#[trigger] matches_at(s, sign, j) by {
        if matches_at(s, sign, j) {
            assert(s.subrange(j, j + 1)[0] == sign[0]);
            assert(s[j] == a[j]);
        }
    }
    law_sides_of_the_first_place(a, sign, b);
}

proof fn lemma_digits(n: u32)
    ensures
        decimal(n as nat).len() > 0,
        forall|i: int| 0 <= i < decimal(n as nat).len() ==> is_digit(#[trigger] decimal(n as nat)[i]),
        number(decimal(n as nat)) == Some(n as int),
        is_field_text(decimal(n as nat)),
{
    lemma_decimal_value(n as nat);
    law_number_round_trip(n as int, 0, u32::MAX as int);
}

/// A number stands for itself, and nothing is wrong with it.
pub proof fn law_number_is_itself(n: u32, min: int, max: int, v: int)
    ensures
        field_error(decimal(n as nat)) is None,
        in_field(decimal(n as nat), min, max, v) == (v == n),
{
    reveal_strlit("/");
    reveal_strlit("-");
    reveal_strlit("*");
    let d = decimal(n as nat);
    lemma_digits(n);
    lemma_one_part(d, min, max, v);
    assert(is_digit(d[0]));
    assert("*"@[0] == '*');
    lemma_sign_missing(d, "/"@);
    lemma_sign_missing(d, "-"@);
}

/// A range stands for its two ends and all between.
pub proof fn law_range_is_all_between(a: u32, b: u32, min: int, max: int, v: int)
    ensures
        ({
            let s = decimal(a as nat) + "-"@ + decimal(b as nat);
            &&& field_error(s) is None
            &&& in_field(s, min, max, v) == (a <= v <= b)
        }),
{
    reveal_strlit("/");
    reveal_strlit("-");
    reveal_strlit("*");
    let x = decimal(a as nat);
    let y = decimal(b as nat);
    let s = x + "-"@ + y;
    lemma_digits(a);
    lemma_digits(b);
    assert forall|i: int| 0 <= i < s.len() implies is_digit(#[trigger] s[i]) || s[i] == '-' by {
        if i < x.len() {
            assert(s[i] == x[i]);
        } else if i > x.len() {
            assert(s[i] == y[i - x.len() - 1]);
        }
    }
    lemma_one_part(s, min, max, v);
    assert(is_digit(x[0]) && s[0] == x[0]);
    lemma_sign_missing(s, "/"@);
    lemma_sign_first(x, "-"@, y);
}

/// A step stands for every so many values, from the least on.
pub proof fn law_step_is_every_so_many(n: u32, min: int, max: int, v: int)
    requires
        n > 0,
    ensures
        ({
            let s = "*/"@ + decimal(n as nat);
            &&& field_error(s) is None
            &&& in_field(s, min, max, v) == (min <= v <= max && (v - min) % (n as int) == 0)
        }),
{
    reveal_strlit("/");
    reveal_strlit("-");
    reveal_strlit("*");
    reveal_strlit("*/");
    let d = decimal(n as nat);
    let s = "*/"@ + d;
    lemma_digits(n);
    assert forall|i: int| 0 <= i < s.len() implies is_digit(#[trigger] s[i]) || s[i] == '/' || s[i]
        == '*' by {
        if i >= 2 {
            assert(s[i] == d[i - 2]);
        }
    }
    lemma_one_part(s, min, max, v);
    assert(s =~= "*"@ + "/"@ + d);
    lemma_sign_first("*"@, "/"@, d);
    assert(s != "*"@) by {
        assert(s.len() > 1);
    }
}

/// An expression of five fields stands for the points in time that all of them stand for.
pub proof fn law_all_five_fields_count(
    a: Seq<char>,
    b: Seq<char>,
    c: Seq<char>,
    d: Seq<char>,
    e: Seq<char>,
    now: Moment,
)
    requires
        is_field_text(a) && is_field_text(b) && is_field_text(c) && is_field_text(d)
            && is_field_text(e),
        field_error(a) is None && field_error(b) is None && field_error(c) is None && field_error(
            d,
        ) is None && field_error(e) is None,
    ensures
        ({
            let blank = seq![' '];
            let expr = a + blank + (b + blank + (c + blank + (d + blank + e)));
            cron_matches(now, expr) == (in_field(a, 0, 59, now.minute as int) && in_field(
                b,
                0,
                23,
                now.hour as int,
            ) && in_field(c, 1, 31, now.day as int) && in_field(d, 1, 12, now.month as int)
                && in_field(
                e,
                0,
                7,
                if now.weekday == 7 {
                    0
                } else {
                    now.weekday as int
                },
            ))
        }),
{
    lemma_one_part(a, 0, 0, 0);
    lemma_one_part(b, 0, 0, 0);
    lemma_one_part(c, 0, 0, 0);
    lemma_one_part(d, 0, 0, 0);
    lemma_one_part(e, 0, 0, 0);
    lemma_five_words(a, b, c, d, e);
    let blank = seq![' '];
    let expr = a + blank + (b + blank + (c + blank + (d + blank + e)));
    lemma_matches(expr, a, b, c, d, e, now);
}

/// Whether a text is a word.
spec fn is_word(s: Seq<char>) -> bool {
    s.len() > 0 && forall|i: int| 0 <= i < s.len() ==> !is_space(#[trigger] s[i])
}

proof fn lemma_word_before(w: Seq<char>, rest: Seq<char>, list: Seq<Seq<char>>)
    requires
        is_word(w),
        words(rest) == list,
    ensures
        words(w + seq![' '] + rest) == seq![w] + list,
{
    law_every_word_is_found(w, ' ', rest);
}

proof fn lemma_two_words(d: Seq<char>, e: Seq<char>)
    requires
        is_word(d) && is_word(e),
    ensures
        words(d + seq![' '] + e) == seq![d, e],
{
    law_every_word_is_found(e, ' ', Seq::empty());
    lemma_word_before(d, e, seq![e]);
    assert(seq![d] + seq![e] =~= seq![d, e]);
}

#[verifier::opaque]
spec fn words_are(s: Seq<char>, list: Seq<Seq<char>>) -> bool {
    words(s) == list
}

proof fn lemma_words_are(w: Seq<char>, rest: Seq<char>, list: Seq<Seq<char>>)
    requires
        is_word(w),
        words_are(rest, list),
    ensures
        words_are(w + seq![' '] + rest, seq![w] + list),
{
    reveal(words_are);
    lemma_word_before(w, rest, list);
}

proof fn lemma_five_words(a: Seq<char>, b: Seq<char>, c: Seq<char>, d: Seq<char>, e: Seq<char>)
    requires
        is_word(a) && is_word(b) && is_word(c) && is_word(d) && is_word(e),
    ensures
        ({
            let blank = seq![' '];
            words_are(
                a + blank + (b + blank + (c + blank + (d + blank + e))),
                seq![a] + (seq![b] + (seq![c] + seq![d, e])),
            )
        }),
{
    let blank = seq![' '];
    let de = d + blank + e;
    let cde = c + blank + de;
    let bcde = b + blank + cde;
    assert(words_are(de, seq![d, e])) by {
        reveal(words_are);
        lemma_two_words(d, e);
    }
    lemma_words_are(c, de, seq![d, e]);
    lemma_words_are(b, cde, seq![c] + seq![d, e]);
    lemma_words_are(a, bcde, seq![b] + (seq![c] + seq![d, e]));
}

proof fn lemma_matches(
    expr: Seq<char>,
    a: Seq<char>,
    b: Seq<char>,
    c: Seq<char>,
    d: Seq<char>,
    e: Seq<char>,
    now: Moment,
)
    requires
        words_are(expr, seq![a] + (seq![b] + (seq![c] + seq![d, e]))),
        field_error(a) is None && field_error(b) is None && field_error(c) is None && field_error(
            d,
        ) is None && field_error(e) is None,
    ensures
        cron_matches(now, expr) == (in_field(a, 0, 59, now.minute as int) && in_field(
            b,
            0,
            23,
            now.hour as int,
        ) && in_field(c, 1, 31, now.day as int) && in_field(d, 1, 12, now.month as int) && in_field(
            e,
            0,
            7,
            if now.weekday == 7 {
                0
            } else {
                now.weekday as int
            },
        )),
{
    reveal(words_are);
    let f = words(expr);
    assert(f.len() == 5);
    assert(f[0] == a && f[1] == b && f[2] == c && f[3] == d && f[4] == e);
}

// ---------------------------------------------------------------------------------------------
// Rounds
// ---------------------------------------------------------------------------------------------
proof fn lemma_fired(
    fired: Map<Seq<char>, Seq<char>>,
    jobs: Seq<JobModel>,
    now: Moment,
    minute_key: Seq<char>,
    n: int,
    id: Seq<char>,
)
    requires
        0 <= n <= jobs.len(),
        forall|j: int| 0 <= j < n ==> (#[trigger] jobs[j]).id != id,
    ensures
        after_jobs(fired, jobs, now, minute_key, n).dom().contains(id) == fired.dom().contains(id),
        fired.dom().contains(id) ==> after_jobs(fired, jobs, now, minute_key, n)[id] == fired[id],
    decreases n,
{
    if n > 0 {
        lemma_fired(fired, jobs, now, minute_key, n - 1, id);
        assert(jobs[n - 1].id != id);
    }
}

proof fn lemma_due(
    fired: Map<Seq<char>, Seq<char>>,
    jobs: Seq<JobModel>,
    now: Moment,
    minute_key: Seq<char>,
    n: int,
    i: int,
)
    requires
        0 <= i < n <= jobs.len(),
    ensures
        due_jobs(fired, jobs, now, minute_key, n).contains(i) <==> is_due(
            fired,
            jobs,
            now,
            minute_key,
            i,
        ),
    decreases n,
{
    let before = due_jobs(fired, jobs, now, minute_key, n - 1);
    let r = due_jobs(fired, jobs, now, minute_key, n);
    lemma_due_below(fired, jobs, now, minute_key, n - 1);
    if i == n - 1 {
        if is_due(fired, jobs, now, minute_key, i) {
            assert(r[before.len() as int] == i);
        } else if r.contains(i) {
            let m = choose|m: int| 0 <= m < r.len() && r[m] == i;
            assert(before[m] < n - 1);
        }
    } else {
        lemma_due(fired, jobs, now, minute_key, n - 1, i);
        if before.contains(i) {
            let m = choose|m: int| 0 <= m < before.len() && before[m] == i;
            assert(r[m] == i);
        }
        if r.contains(i) {
            let m = choose|m: int| 0 <= m < r.len() && r[m] == i;
            if m < before.len() {
                assert(before[m] == i);
            }
        }
    }
}

proof fn lemma_due_below(
    fired: Map<Seq<char>, Seq<char>>,
    jobs: Seq<JobModel>,
    now: Moment,
    minute_key: Seq<char>,
    n: int,
)
    ensures
        forall|m: int|
            0 <= m < due_jobs(fired, jobs, now, minute_key, n).len() ==> #[trigger] due_jobs(
                fired,
                jobs,
                now,
                minute_key,
                n,
            )[m] < n,
    decreases n,
{
    if n > 0 {
        lemma_due_below(fired, jobs, now, minute_key, n - 1);
        let before = due_jobs(fired, jobs, now, minute_key, n - 1);
        let r = due_jobs(fired, jobs, now, minute_key, n);
        assert forall|m: int| 0 <= m < r.len() implies #[trigger] r[m] < n by {
            if m < before.len() {
                assert(r[m] == before[m]);
            }
        }
    }
}

/// A job fires in a round just where it is switched on, its expression stands for the time, and it did
/// not fire in this minute yet.
pub proof fn law_every_due_job_fires(
    fired: Map<Seq<char>, Seq<char>>,
    jobs: Seq<JobModel>,
    now: Moment,
    minute_key: Seq<char>,
    i: int,
)
    requires
        0 <= i < jobs.len(),
        forall|j: int| 0 <= j < i ==> (#[trigger] jobs[j]).id != jobs[i].id,
    ensures
        due_jobs(fired, jobs, now, minute_key, jobs.len() as int).contains(i) <==> jobs[i].enabled
            && cron_matches(now, jobs[i].cron) && !(fired.dom().contains(jobs[i].id)
            && fired[jobs[i].id] == minute_key),
{
    lemma_fired(fired, jobs, now, minute_key, i, jobs[i].id);
    lemma_due(fired, jobs, now, minute_key, jobs.len() as int, i);
}

/// Behind a round a job that did not fire is left as it was, and one that fires again and again is left
/// with the time at which it fired.
pub proof fn law_other_jobs_are_left(
    fired: Map<Seq<char>, Seq<char>>,
    jobs: Seq<JobModel>,
    now: Moment,
    minute_key: Seq<char>,
    stamp: Seq<char>,
    n: int,
    i: int,
)
    requires
        0 <= i < n <= jobs.len(),
    ensures
        !is_due(fired, jobs, now, minute_key, i) ==> jobs_left(
            fired,
            jobs,
            now,
            minute_key,
            stamp,
            n,
        ).contains(jobs[i]),
        is_due(fired, jobs, now, minute_key, i) && jobs[i].recurring ==> jobs_left(
            fired,
            jobs,
            now,
            minute_key,
            stamp,
            n,
        ).contains(JobModel { last_fired: Some(stamp), ..jobs[i] }),
    decreases n,
{
    let before = jobs_left(fired, jobs, now, minute_key, stamp, n - 1);
    let r = jobs_left(fired, jobs, now, minute_key, stamp, n);
    let due = is_due(fired, jobs, now, minute_key, i);
    let x = if due {
        JobModel { last_fired: Some(stamp), ..jobs[i] }
    } else {
        jobs[i]
    };
    if !due || jobs[i].recurring {
        if i == n - 1 {
            assert(r[before.len() as int] == x);
        } else {
            law_other_jobs_are_left(fired, jobs, now, minute_key, stamp, n - 1, i);
            let m = choose|m: int| 0 <= m < before.len() && before[m] == x;
            assert(r[m] == x);
        }
    }
}

} // verus!
