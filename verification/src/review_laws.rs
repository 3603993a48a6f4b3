//! Nothing dangerous in a skill is passed over: every rule is held against every line of every text file,
//! and what is found decides the verdict.
use vstd::prelude::*;
use vstd::string::*;

use crate::file_store::joined;
use crate::json::JsonModel;
use crate::pattern::{regex_find, regex_valid};
use crate::reply_laws::{law_member_is_found, says};
use crate::skill_review::{
    dependency_line, dependency_lines, digest_input, excerpt_of, files_findings, finding_line,
    finding_lines, is_binary, is_mentioned, is_opened, is_scanned, last_at, line_findings,
    lines_findings, merged, needed_binaries, opened_in, packages_in, packages_on, probed,
    prompt_block, prompt_from, scanned_in, text_files, unquoted, verdict_block, verdict_in, whole_text, worst, DependencyModel,
    DirEntry, FindingModel, NeededModel, RuleModel, SkillFile, PROMPT_TOTAL_CAP,
};
use crate::text::{byte_len, holds, lines, lossy_text, matches_at, starts_with, trim, words};
use crate::word_laws::law_sides_of_the_first_place;

verus! {

// ---------------------------------------------------------------------------------------------
// Findings
// ---------------------------------------------------------------------------------------------
proof fn lemma_in_left(a: Seq<FindingModel>, b: Seq<FindingModel>, f: FindingModel)
    ensures
        (a + b).contains(f) <==> a.contains(f) || b.contains(f),
{
    let s = a + b;
    if a.contains(f) {
        let i = choose|i: int| 0 <= i < a.len() && a[i] == f;
        assert(s[i] == f);
    }
    if b.contains(f) {
        let i = choose|i: int| 0 <= i < b.len() && b[i] == f;
        assert(s[a.len() + i] == f);
    }
    if s.contains(f) {
        let i = choose|i: int| 0 <= i < s.len() && s[i] == f;
        if i < a.len() {
            assert(a[i] == f);
        } else {
            assert(b[i - a.len()] == f);
        }
    }
}

/// What a rule that matches says of a line.
pub open spec fn is_match(
    rule: RuleModel,
    file: Seq<char>,
    no: int,
    line: Seq<char>,
    f: FindingModel,
) -> bool {
    regex_valid(rule.pattern) && regex_find(rule.pattern, line) is Some && f == (FindingModel {
        severity: rule.severity,
        category: rule.category,
        file,
        line: no,
        excerpt: excerpt_of(line, regex_find(rule.pattern, line)->0),
        rule: rule.name,
    })
}

proof fn lemma_line(
    rules: Seq<RuleModel>,
    file: Seq<char>,
    no: int,
    line: Seq<char>,
    k: int,
    f: FindingModel,
)
    requires
        0 <= k < rules.len(),
        is_match(rules[k], file, no, line, f),
    ensures
        line_findings(rules, file, no, line).contains(f),
    decreases rules.len(),
{
    let before = line_findings(rules.drop_last(), file, no, line);
    let all = line_findings(rules, file, no, line);
    if k == rules.len() - 1 {
        assert(all[before.len() as int] == f);
    } else {
        assert(rules.drop_last()[k] == rules[k]);
        lemma_line(rules.drop_last(), file, no, line, k, f);
        let i = choose|i: int| 0 <= i < before.len() && before[i] == f;
        assert(all[i] == f);
    }
}

proof fn lemma_lines(
    rules: Seq<RuleModel>,
    file: Seq<char>,
    list: Seq<Seq<char>>,
    n: int,
    k: int,
    f: FindingModel,
)
    requires
        0 <= n < list.len(),
        0 <= k < rules.len(),
        is_match(rules[k], file, n + 1, list[n], f),
    ensures
        lines_findings(rules, file, list).contains(f),
    decreases list.len(),
{
    let before = lines_findings(rules, file, list.drop_last());
    let here = line_findings(rules, file, list.len() as int, list.last());
    lemma_in_left(before, here, f);
    if n == list.len() - 1 {
        lemma_line(rules, file, n + 1, list[n], k, f);
    } else {
        assert(list.drop_last()[n] == list[n]);
        lemma_lines(rules, file, list.drop_last(), n, k, f);
    }
}

/// A rule that matches a line of a text file is found there, with the number of the line, whichever file,
/// line and rule it is; and a finding of the severity `risk` makes the verdict `risk`.
pub proof fn law_nothing_is_passed_over(
    rules: Seq<RuleModel>,
    files: Seq<SkillFile>,
    m: int,
    n: int,
    k: int,
    f: FindingModel,
)
    requires
        0 <= m < files.len(),
        !is_binary(files[m].bytes@),
        0 <= n < lines(lossy_text(files[m].bytes@)).len(),
        0 <= k < rules.len(),
        is_match(rules[k], files[m].rel@, n + 1, lines(lossy_text(files[m].bytes@))[n], f),
    ensures
        files_findings(rules, files).contains(f),
        rules[k].severity == "risk"@ ==> worst(files_findings(rules, files)) == "risk"@,
        rules[k].severity == "warn"@ ==> worst(files_findings(rules, files)) != "pass"@,
    decreases files.len(),
{
    reveal_strlit("risk");
    reveal_strlit("warn");
    reveal_strlit("pass");
    assert("risk"@[0] == 'r' && "warn"@[0] == 'w' && "pass"@[0] == 'p');
    let before = files_findings(rules, files.drop_last());
    let last = files.last();
    let here = lines_findings(rules, last.rel@, lines(lossy_text(last.bytes@)));
    lemma_in_left(before, here, f);
    if m == files.len() - 1 {
        lemma_lines(rules, last.rel@, lines(lossy_text(last.bytes@)), n, k, f);
    } else {
        assert(files.drop_last()[m] == files[m]);
        law_nothing_is_passed_over(rules, files.drop_last(), m, n, k, f);
    }
    let all = files_findings(rules, files);
    assert(all.contains(f));
    let i = choose|i: int| 0 <= i < all.len() && all[i] == f;
    assert(all[i].severity == rules[k].severity);
}

/// What is found in two lists of files is what is found in the first and then what is found in the
/// second, and in a file that is no text nothing is found.
pub proof fn law_findings_of_every_file(
    rules: Seq<RuleModel>,
    a: Seq<SkillFile>,
    b: Seq<SkillFile>,
    f: SkillFile,
)
    ensures
        files_findings(rules, a + b) == files_findings(rules, a) + files_findings(rules, b),
        is_binary(f.bytes@) ==> files_findings(rules, seq![f]).len() == 0,
    decreases b.len(),
{
    let none = Seq::<SkillFile>::empty();
    assert(files_findings(rules, none) =~= Seq::empty());
    assert(seq![f].drop_last() =~= none);
    assert(seq![f].last() == f);
    if b.len() == 0 {
        assert(a + b =~= a);
        assert(files_findings(rules, a) + files_findings(rules, b) =~= files_findings(rules, a));
    } else {
        law_findings_of_every_file(rules, a, b.drop_last(), f);
        assert((a + b).drop_last() =~= a + b.drop_last());
        assert((a + b).last() == b.last());
        let x = files_findings(rules, a);
        let y = files_findings(rules, b.drop_last());
        let z = lines_findings(rules, b.last().rel@, lines(lossy_text(b.last().bytes@)));
        assert(x + (y + z) =~= x + y + z);
    }
}

/// A skill in which nothing was found passes, and one passes only where nothing of either severity was
/// found.
pub proof fn law_only_the_harmless_passes(list: Seq<FindingModel>, k: int)
    ensures
        list.len() == 0 ==> worst(list) == "pass"@,
        0 <= k < list.len() && list[k].severity == "risk"@ ==> worst(list) == "risk"@,
        0 <= k < list.len() && list[k].severity == "warn"@ ==> worst(list) == "risk"@ || worst(list)
            == "warn"@,
{
}

/// A risk stays a risk whatever the second opinion says, and is one whatever the first said; without a
/// second opinion the first stands.
pub proof fn law_risk_stays_a_risk(other: Seq<char>)
    ensures
        merged("risk"@, Some(other)) == "risk"@,
        merged("risk"@, None) == "risk"@,
        merged(other, Some("risk"@)) == "risk"@,
        merged("warn"@, Some("pass"@)) == "warn"@,
        merged("pass"@, Some("warn"@)) == "warn"@,
        merged("warn"@, None) == "warn"@,
        merged("pass"@, Some("pass"@)) == "pass"@,
        merged("pass"@, None) == "pass"@,
{
    reveal_strlit("risk");
    reveal_strlit("warn");
    reveal_strlit("pass");
    assert("risk"@[0] == 'r' && "warn"@[0] == 'w' && "pass"@[0] == 'p');
}

// ---------------------------------------------------------------------------------------------
// Files
// ---------------------------------------------------------------------------------------------
/// The files of a directory that are scanned, and the directories that are opened, are all of its entries
/// that should be, in their order.
pub proof fn law_every_entry_is_looked_at(dir: Seq<char>, v: Seq<DirEntry>)
    ensures
        scanned_in(dir, v) == v.filter(|e: DirEntry| is_scanned(dir, e)).map_values(
            |e: DirEntry| joined(dir, e.name@),
        ),
        opened_in(dir, v) == v.filter(|e: DirEntry| is_opened(e)).map_values(
            |e: DirEntry| joined(dir, e.name@),
        ),
    decreases v.len(),
{
    reveal(Seq::filter);
    let f = |e: DirEntry| joined(dir, e.name@);
    let p = |e: DirEntry| is_scanned(dir, e);
    let q = |e: DirEntry| is_opened(e);
    if v.len() > 0 {
        law_every_entry_is_looked_at(dir, v.drop_last());
        let a = v.drop_last().filter(p);
        let b = v.drop_last().filter(q);
        assert(a.push(v.last()).map_values(f) =~= a.map_values(f).push(f(v.last())));
        assert(b.push(v.last()).map_values(f) =~= b.map_values(f).push(f(v.last())));
    } else {
        assert(v.filter(p).map_values(f) =~= Seq::empty());
        assert(v.filter(q).map_values(f) =~= Seq::empty());
    }
}

/// The digest of a skill covers the path and the bytes of every file, in their order.
pub proof fn law_digest_covers_every_file(a: Seq<SkillFile>, b: Seq<SkillFile>, f: SkillFile)
    ensures
        digest_input(a + b) == digest_input(a) + digest_input(b),
        digest_input(seq![f]) == vstd::utf8::encode_utf8(f.rel@) + seq![0u8] + f.bytes@ + seq![0u8],
    decreases b.len(),
{
    let none = Seq::<SkillFile>::empty();
    assert(digest_input(none) =~= Seq::empty());
    assert(seq![f].drop_last() =~= none);
    assert(seq![f].last() == f);
    assert(digest_input(seq![f]) =~= vstd::utf8::encode_utf8(f.rel@) + seq![0u8] + f.bytes@ + seq![
        0u8,
    ]);
    if b.len() == 0 {
        assert(a + b =~= a);
        assert(digest_input(a) + digest_input(b) =~= digest_input(a));
    } else {
        law_digest_covers_every_file(a, b.drop_last(), f);
        assert((a + b).drop_last() =~= a + b.drop_last());
        assert((a + b).last() == b.last());
        assert(digest_input(a + b) =~= digest_input(a) + digest_input(b));
    }
}

/// The text files of a skill are all its files that are texts, and its text is that of all of them, each
/// with a line break behind it.
pub proof fn law_every_text_file_counts(a: Seq<SkillFile>, b: Seq<SkillFile>, f: SkillFile)
    ensures
        text_files(a + b) == text_files(a) + text_files(b),
        whole_text(a + b) == whole_text(a) + whole_text(b),
        !is_binary(f.bytes@) ==> text_files(seq![f]) == seq![f.rel@],
        !is_binary(f.bytes@) ==> whole_text(seq![f]) == lossy_text(f.bytes@) + "\n"@,
        is_binary(f.bytes@) ==> text_files(seq![f]).len() == 0 && whole_text(seq![f]).len() == 0,
    decreases b.len(),
{
    let none = Seq::<SkillFile>::empty();
    assert(text_files(none) =~= Seq::empty());
    assert(whole_text(none) =~= Seq::empty());
    assert(seq![f].drop_last() =~= none);
    assert(seq![f].last() == f);
    if !is_binary(f.bytes@) {
        assert(whole_text(seq![f]) =~= lossy_text(f.bytes@) + "\n"@);
    }
    if b.len() == 0 {
        assert(a + b =~= a);
        assert(text_files(a) + text_files(b) =~= text_files(a));
        assert(whole_text(a) + whole_text(b) =~= whole_text(a));
    } else {
        law_every_text_file_counts(a, b.drop_last(), f);
        assert((a + b).drop_last() =~= a + b.drop_last());
        assert((a + b).last() == b.last());
        assert(whole_text(a + b) =~= whole_text(a) + whole_text(b));
        assert(text_files(a + b) =~= text_files(a) + text_files(b));
    }
}

// ---------------------------------------------------------------------------------------------
// Needs
// ---------------------------------------------------------------------------------------------
/// The programs that a skill needs are all known ones that its text mentions, in their order.
pub proof fn law_every_mentioned_program_is_needed(text: Seq<char>, names: Seq<Seq<char>>)
    ensures
        needed_binaries(text, names) == names.filter(
            |n: Seq<char>| is_mentioned(text, n),
        ).map_values(|n: Seq<char>| NeededModel { name: n, kind: "binary"@, probe: n }),
    decreases names.len(),
{
    reveal(Seq::filter);
    let f = |n: Seq<char>| NeededModel { name: n, kind: "binary"@, probe: n };
    let p = |n: Seq<char>| is_mentioned(text, n);
    if names.len() > 0 {
        law_every_mentioned_program_is_needed(text, names.drop_last());
        let a = names.drop_last().filter(p);
        assert(a.push(names.last()).map_values(f) =~= a.map_values(f).push(f(names.last())));
    } else {
        assert(names.filter(p).map_values(f) =~= Seq::empty());
    }
}

proof fn lemma_holds_push(list: Seq<Seq<char>>, s: Seq<char>, x: Seq<char>)
    ensures
        holds(list.push(s), x) <==> holds(list, x) || x == s,
{
    let r = list.push(s);
    assert(r[list.len() as int] == s);
    if holds(list, x) {
        let i = choose|i: int| 0 <= i < list.len() && list[i] == x;
        assert(r[i] == x);
    }
    if holds(r, x) {
        let i = choose|i: int| 0 <= i < r.len() && r[i] == x;
        if i < list.len() {
            assert(list[i] == x);
        }
    }
}

/// Whether a word of a list names a package.
pub open spec fn names_package(list: Seq<Seq<char>>, p: Seq<char>) -> bool {
    p.len() > 0 && exists|k: int|
        0 <= k < list.len() && !starts_with(#[trigger] list[k], "-"@) && unquoted(list[k]) == p
}

/// The packages behind a command are all its words but the options, without quotes, next to those that
/// were found before.
pub proof fn law_every_package_is_found(
    seen: Seq<Seq<char>>,
    list: Seq<Seq<char>>,
    p: Seq<char>,
)
    ensures
        holds(packages_on(seen, list), p) <==> holds(seen, p) || names_package(list, p),
    decreases list.len(),
{
    if list.len() > 0 {
        let shorter = list.drop_last();
        let before = packages_on(seen, shorter);
        law_every_package_is_found(seen, shorter, p);
        lemma_holds_push(before, unquoted(list.last()), p);
        assert(list[list.len() - 1] == list.last());
        if names_package(shorter, p) {
            let k = choose|k: int|
                0 <= k < shorter.len() && !starts_with(#[trigger] shorter[k], "-"@) && unquoted(
                    shorter[k],
                ) == p;
            assert(list[k] == shorter[k]);
            assert(names_package(list, p));
        }
        if names_package(list, p) {
            let k = choose|k: int|
                0 <= k < list.len() && !starts_with(#[trigger] list[k], "-"@) && unquoted(list[k])
                    == p;
            if k < shorter.len() {
                assert(shorter[k] == list[k]);
            }
        }
    } else {
        assert(!names_package(list, p));
    }
}

/// The packages of a skill are those of every command that installs some.
pub proof fn law_packages_of_every_command(
    groups: Seq<Seq<char>>,
    group: Seq<char>,
    p: Seq<char>,
)
    ensures
        holds(packages_in(groups.push(group)), p) <==> holds(packages_in(groups), p)
            || names_package(words(group), p),
{
    assert(groups.push(group).drop_last() =~= groups);
    assert(groups.push(group).last() == group);
    law_every_package_is_found(packages_in(groups), words(group), p);
}

/// Every need is tried, under its name, and is there just where its probe said so.
pub proof fn law_every_need_is_probed(list: Seq<NeededModel>, available: Seq<bool>, k: int)
    requires
        0 <= k < list.len(),
    ensures
        probed(list, available).len() == list.len(),
        probed(list, available)[k].name == list[k].name,
        probed(list, available)[k].kind == list[k].kind,
        k < available.len() ==> probed(list, available)[k].available == available[k],
        k >= available.len() ==> !probed(list, available)[k].available,
{
}

// ---------------------------------------------------------------------------------------------
// The second opinion
// ---------------------------------------------------------------------------------------------
/// Every finding and every dependency has a line in the request.
pub proof fn law_every_finding_has_a_line(
    a: Seq<FindingModel>,
    b: Seq<FindingModel>,
    f: FindingModel,
    c: Seq<DependencyModel>,
    d: Seq<DependencyModel>,
    e: DependencyModel,
)
    ensures
        finding_lines(a + b) == finding_lines(a) + finding_lines(b),
        finding_lines(seq![f]) == finding_line(f),
        dependency_lines(c + d) == dependency_lines(c) + dependency_lines(d),
        dependency_lines(seq![e]) == dependency_line(e),
{
    lemma_finding_lines(a, b);
    lemma_dependency_lines(c, d);
    let none = Seq::<FindingModel>::empty();
    assert(finding_lines(none) =~= Seq::empty());
    assert(seq![f].drop_last() =~= none);
    assert(seq![f].last() == f);
    assert(finding_lines(seq![f]) =~= finding_line(f));
    let zero = Seq::<DependencyModel>::empty();
    assert(dependency_lines(zero) =~= Seq::empty());
    assert(seq![e].drop_last() =~= zero);
    assert(seq![e].last() == e);
    assert(dependency_lines(seq![e]) =~= dependency_line(e));
}

proof fn lemma_finding_lines(a: Seq<FindingModel>, b: Seq<FindingModel>)
    ensures
        finding_lines(a + b) == finding_lines(a) + finding_lines(b),
    decreases b.len(),
{
    if b.len() == 0 {
        assert(a + b =~= a);
        assert(finding_lines(a) + finding_lines(b) =~= finding_lines(a));
    } else {
        lemma_finding_lines(a, b.drop_last());
        assert((a + b).drop_last() =~= a + b.drop_last());
        assert((a + b).last() == b.last());
        assert(finding_lines(a + b) =~= finding_lines(a) + finding_lines(b));
    }
}

proof fn lemma_dependency_lines(a: Seq<DependencyModel>, b: Seq<DependencyModel>)
    ensures
        dependency_lines(a + b) == dependency_lines(a) + dependency_lines(b),
    decreases b.len(),
{
    if b.len() == 0 {
        assert(a + b =~= a);
        assert(dependency_lines(a) + dependency_lines(b) =~= dependency_lines(a));
    } else {
        lemma_dependency_lines(a, b.drop_last());
        assert((a + b).drop_last() =~= a + b.drop_last());
        assert((a + b).last() == b.last());
        assert(dependency_lines(a + b) =~= dependency_lines(a) + dependency_lines(b));
    }
}

/// The files of a request, one behind the other.
pub open spec fn blocks(files: Seq<SkillFile>) -> Seq<char>
    decreases files.len(),
{
    if files.len() == 0 {
        Seq::empty()
    } else {
        prompt_block(files[0]) + blocks(files.skip(1))
    }
}

proof fn lemma_prompt(out: Seq<char>, files: Seq<SkillFile>, i: int)
    requires
        0 <= i <= files.len(),
        byte_len(out + blocks(files.skip(i))) <= PROMPT_TOTAL_CAP,
    ensures
        prompt_from(out, files, i) == out + blocks(files.skip(i)),
    decreases files.len() - i,
{
    let rest = files.skip(i);
    if i < files.len() {
        let b = prompt_block(files[i]);
        assert(rest[0] == files[i]);
        assert(rest.skip(1) =~= files.skip(i + 1));
        assert(out + blocks(rest) =~= out + b + blocks(files.skip(i + 1)));
        crate::office_text::lemma_bytes_split(out + b, blocks(files.skip(i + 1)));
        crate::office_text::lemma_bytes_split(out, b);
        lemma_prompt(out + b, files, i + 1);
    } else {
        assert(blocks(rest) =~= Seq::empty());
        assert(out + blocks(rest) =~= out);
    }
}

/// A request into which all files fit holds all of them, in their order.
pub proof fn law_request_holds_every_file(out: Seq<char>, files: Seq<SkillFile>)
    requires
        byte_len(out + blocks(files)) <= PROMPT_TOTAL_CAP,
    ensures
        prompt_from(out, files, 0) == out + blocks(files),
{
    assert(files.skip(0) =~= files);
    lemma_prompt(out, files, 0);
}

/// The last place of a pattern is one, and behind it there is none.
pub proof fn law_last_place_is_last(s: Seq<char>, pat: Seq<char>, i: int)
    ensures
        match last_at(s, pat, i) {
            Some(k) => 0 <= k <= i && matches_at(s, pat, k) && forall|j: int|
                k < j <= i ==> !#[trigger] matches_at(s, pat, j),
            None => forall|j: int| 0 <= j <= i ==> !#[trigger] matches_at(s, pat, j),
        },
    decreases i + 1,
{
    if i >= 0 && !matches_at(s, pat, i) {
        law_last_place_is_last(s, pat, i - 1);
    }
}

/// The verdict of a reply is what stands in its last block that is marked as one.
pub proof fn law_last_verdict_is_read(before: Seq<char>, inside: Seq<char>, behind: Seq<char>)
    requires
        forall|j: int|
            0 <= j < inside.len() ==> !#[trigger] matches_at(inside + "```"@ + behind, "```"@, j),
        forall|j: int|
            before.len() < j ==> !#[trigger] matches_at(
                before + "```verdict"@ + (inside + "```"@ + behind),
                "```verdict"@,
                j,
            ),
    ensures
        verdict_block(before + "```verdict"@ + (inside + "```"@ + behind)) == Some(trim(inside)),
{
    reveal_strlit("```verdict");
    let mark = "```verdict"@;
    let rest = inside + "```"@ + behind;
    let s = before + mark + rest;
    let n = before.len() as int;
    assert(s.subrange(n, n + 10) =~= mark);
    law_last_place_is_last(s, mark, s.len() - 10);
    if let Some(k) = last_at(s, mark, s.len() - 10) {
        if k < n {
            assert(!matches_at(s, mark, n));
        } else if k > n {
            assert(!matches_at(s, mark, k));
        }
    } else {
        assert(!matches_at(s, mark, n));
    }
    assert(s.skip(n + 10) =~= rest);
    law_sides_of_the_first_place(inside, "```"@, behind);
}

/// A verdict is one of the three, with the summary that is given beside it.
pub proof fn law_verdict_says_what_is_given(
    v: JsonModel,
    status: Seq<char>,
    summary: Seq<char>,
)
    requires
        says(v, "status"@, JsonModel::Str(status)),
    ensures
        status == "pass"@ || status == "warn"@ || status == "risk"@ ==> verdict_in(v) is Some
            && verdict_in(v)->0.status == status,
        (status == "pass"@ || status == "warn"@ || status == "risk"@) && says(
            v,
            "summary"@,
            JsonModel::Str(summary),
        ) ==> verdict_in(v)->0.summary == summary,
        status != "pass"@ && status != "warn"@ && status != "risk"@ ==> verdict_in(v) is None,
{
    law_member_is_found(v, "status"@, JsonModel::Str(status));
    law_member_is_found(v, "summary"@, JsonModel::Str(summary));
}

} // verus!
