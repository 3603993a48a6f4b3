//! Every skill is listed, and every file of an archive is written.
use vstd::prelude::*;
use vstd::string::*;

use crate::archive::{is_enclosed, Entry};
use crate::file_store::joined;
use crate::skills::{
    all_files, count_of, dashed, digest_of, entry_files, extract_step, extract_steps, inner_files,
    is_plain, is_skill_file, legal_name, low_char, low_chars, shown, skill_entry, skill_fields,
    skill_in, skill_named, skill_text, skill_value, skills_in, DirDigest, Listed, Named, SkillDir,
    SkillModel, StepModel,
};
use crate::text::{lines, matches_at, starts_with, trim};
use crate::word_laws::law_sides_of_the_first_place;

verus! {

// ---------------------------------------------------------------------------------------------
// Texts
// ---------------------------------------------------------------------------------------------
/// A line of frontmatter with a name or a description sets it and keeps the other; any other line
/// changes nothing.
pub proof fn law_last_field_counts(list: Seq<Seq<char>>, line: Seq<char>, v: Seq<char>)
    ensures
        skill_fields(list.push("name:"@ + v)) == (skill_value(v), skill_fields(list).1),
        skill_fields(list.push("description:"@ + v)) == (skill_fields(list).0, skill_value(v)),
        !starts_with(line, "name:"@) && !starts_with(line, "description:"@) ==> skill_fields(
            list.push(line),
        ) == skill_fields(list),
        skill_fields(Seq::empty()).0.len() == 0,
        skill_fields(Seq::empty()).1.len() == 0,
{
    reveal_strlit("name:");
    reveal_strlit("description:");
    let n = "name:"@ + v;
    assert(list.push(n).drop_last() =~= list);
    assert(n.subrange(0, 5) =~= "name:"@);
    assert(n.skip(5) =~= v);
    let d = "description:"@ + v;
    assert(list.push(d).drop_last() =~= list);
    assert(d.subrange(0, 12) =~= "description:"@);
    assert(d.skip(12) =~= v);
    assert(!starts_with(d, "name:"@)) by {
        if starts_with(d, "name:"@) {
            assert(d.subrange(0, 5)[0] == "name:"@[0]);
            assert(d[0] == 'd');
        }
    }
    assert(list.push(line).drop_last() =~= list);
}

/// The text of a skill has the name and the description of its frontmatter, and what stands behind that.
pub proof fn law_skill_is_read(front: Seq<char>, rest: Seq<char>)
    requires
        forall|j: int|
            0 <= j < front.len() ==> !#[trigger] matches_at(front + "---"@ + rest, "---"@, j),
        skill_fields(lines(front)).0.len() > 0,
    ensures
        ({
            let r = skill_text("---"@ + front + "---"@ + rest);
            &&& r is Some
            &&& r->0.name == skill_fields(lines(front)).0
            &&& r->0.description == skill_fields(lines(front)).1
            &&& r->0.content == trim(rest)
        }),
{
    reveal_strlit("---");
    let body = front + "---"@ + rest;
    let text = "---"@ + front + "---"@ + rest;
    assert(text.subrange(0, 3) =~= "---"@);
    assert(text.skip(3) =~= body);
    law_sides_of_the_first_place(front, "---"@, rest);
}

/// A name is put into lower case character by character, and a dash stands for each row of characters
/// that a name does not have.
pub proof fn law_names_are_made_legal(a: Seq<char>, b: Seq<char>, c: char)
    ensures
        low_chars(a + b) == low_chars(a) + low_chars(b),
        low_chars(seq![c]) == low_char(c),
        is_plain(c) ==> dashed(a.push(c)) == dashed(a).push(c),
        !is_plain(c) && dashed(a).len() > 0 && dashed(a).last() != '-' ==> dashed(a.push(c)) == dashed(
            a,
        ).push('-'),
        !is_plain(c) && (dashed(a).len() == 0 || dashed(a).last() == '-') ==> dashed(a.push(c))
            == dashed(a),
    decreases b.len(),
{
    let none = Seq::<char>::empty();
    assert(low_chars(none) =~= none);
    assert(seq![c].drop_last() =~= none);
    assert(seq![c].last() == c);
    assert(none + low_char(c) =~= low_char(c));
    assert(a.push(c).drop_last() =~= a);
    if b.len() == 0 {
        assert(a + b =~= a);
        assert(low_chars(a) + low_chars(b) =~= low_chars(a));
    } else {
        law_names_are_made_legal(a, b.drop_last(), c);
        assert((a + b).drop_last() =~= a + b.drop_last());
        assert((a + b).last() == b.last());
        assert(low_chars(a) + (low_chars(b.drop_last()) + low_char(b.last())) =~= low_chars(a)
            + low_chars(b.drop_last()) + low_char(b.last()));
    }
}

// ---------------------------------------------------------------------------------------------
// Lists
// ---------------------------------------------------------------------------------------------
/// The skills of two lists of directories are those of the first and then those of the second; a
/// directory with a text that names a skill holds it.
pub proof fn law_every_skill_is_found(a: Seq<SkillDir>, b: Seq<SkillDir>, d: SkillDir)
    ensures
        skills_in(a + b) == skills_in(a) + skills_in(b),
        d.text is Some && skill_text(d.text->0@) is Some && legal_name(
            skill_text(d.text->0@)->0.name,
        ) is Some ==> skills_in(seq![d]) == seq![
            SkillModel {
                name: legal_name(skill_text(d.text->0@)->0.name)->0,
                description: skill_text(d.text->0@)->0.description,
                content: skill_text(d.text->0@)->0.content,
                dir: d.path@,
            },
        ],
        d.text is None ==> skills_in(seq![d]).len() == 0,
    decreases b.len(),
{
    let none = Seq::<SkillDir>::empty();
    assert(skills_in(none) =~= Seq::empty());
    assert(seq![d].drop_last() =~= none);
    assert(seq![d].last() == d);
    if let Some(s) = skill_in(d) {
        assert(skills_in(seq![d]) =~= seq![s]);
    }
    if b.len() == 0 {
        assert(a + b =~= a);
        assert(skills_in(a) + skills_in(b) =~= skills_in(a));
    } else {
        law_every_skill_is_found(a, b.drop_last(), d);
        assert((a + b).drop_last() =~= a + b.drop_last());
        assert((a + b).last() == b.last());
    }
}

/// The skill of a name is the first with it, and there is none just where no skill has it.
pub proof fn law_skill_is_found_by_name(list: Seq<SkillModel>, name: Seq<char>, i: int, k: int)
    requires
        0 <= i <= k < list.len(),
        list[k].name == name,
        forall|j: int| i <= j < k ==> (#[trigger] list[j]).name != name,
    ensures
        skill_named(list, name, i) == Some(list[k]),
    decreases k - i,
{
    if i < k {
        assert(list[i].name != name);
        law_skill_is_found_by_name(list, name, i + 1, k);
    }
}

/// The digest of a directory is that of the first entry for it.
pub proof fn law_digest_is_found(list: Seq<DirDigest>, dir: Seq<char>, i: int, k: int)
    requires
        0 <= i <= k < list.len(),
        list[k].dir@ == dir,
        forall|j: int| i <= j < k ==> (#[trigger] list[j]).dir@ != dir,
    ensures
        digest_of(list, dir, i) == list[k].hash@,
    decreases k - i,
{
    if i < k {
        assert(list[i].dir@ != dir);
        law_digest_is_found(list, dir, i + 1, k);
    }
}

/// What is shown of a skill's directory is shown entry by entry, and so is what is shown of a directory
/// inside: all but the hidden ones.
pub proof fn law_every_file_is_shown(
    v: Seq<Listed>,
    a: Seq<int>,
    b: Seq<int>,
    dir: Seq<char>,
    inside: Seq<Named>,
    k: int,
)
    ensures
        all_files(v, a + b) == all_files(v, a) + all_files(v, b),
        all_files(v, seq![k]) == entry_files(v[k]),
        inner_files(dir, inside, a + b) == inner_files(dir, inside, a) + inner_files(dir, inside, b),
        !starts_with(inside[k].name@, "."@) ==> inner_files(dir, inside, seq![k]) == seq![
            shown(joined(dir, inside[k].name@), inside[k].is_dir),
        ],
        starts_with(inside[k].name@, "."@) ==> inner_files(dir, inside, seq![k]).len() == 0,
    decreases b.len(),
{
    let none = Seq::<int>::empty();
    assert(all_files(v, none) =~= Seq::empty());
    assert(inner_files(dir, inside, none) =~= Seq::empty());
    assert(seq![k].drop_last() =~= none);
    assert(seq![k].last() == k);
    assert(all_files(v, seq![k]) =~= entry_files(v[k]));
    if b.len() == 0 {
        assert(a + b =~= a);
        assert(all_files(v, a) + all_files(v, b) =~= all_files(v, a));
        assert(inner_files(dir, inside, a) + inner_files(dir, inside, b) =~= inner_files(
            dir,
            inside,
            a,
        ));
    } else {
        law_every_file_is_shown(v, a, b.drop_last(), dir, inside, k);
        assert((a + b).drop_last() =~= a + b.drop_last());
        assert((a + b).last() == b.last());
        assert(all_files(v, a + b) =~= all_files(v, a) + all_files(v, b));
    }
}

/// A character is counted in each part of a text.
pub proof fn law_every_place_counts(a: Seq<char>, b: Seq<char>, c: char, d: char)
    ensures
        count_of(a + b, c) == count_of(a, c) + count_of(b, c),
        count_of(seq![d], c) == if d == c {
            1nat
        } else {
            0
        },
    decreases b.len(),
{
    let none = Seq::<char>::empty();
    assert(count_of(none, c) == 0);
    assert(seq![d].drop_last() =~= none);
    assert(seq![d].last() == d);
    if b.len() == 0 {
        assert(a + b =~= a);
    } else {
        law_every_place_counts(a, b.drop_last(), c, d);
        assert((a + b).drop_last() =~= a + b.drop_last());
        assert((a + b).last() == b.last());
    }
}

// ---------------------------------------------------------------------------------------------
// Archives
// ---------------------------------------------------------------------------------------------
/// The skill of an archive is its first `SKILL.md`, and none is found just where there is none.
pub proof fn law_first_skill_file_is_taken(list: Seq<Entry>, i: int)
    requires
        0 <= i,
        forall|j: int| 0 <= j < list.len() ==> (#[trigger] list[j]).info is Ok,
    ensures
        match skill_entry(list, i) {
            Ok(Some(k)) => i <= k < list.len() && is_enclosed(list[k].name) && is_skill_file(
                list[k].name,
            ) && forall|j: int|
                i <= j < k ==> !(is_enclosed((#[trigger] list[j]).name) && is_skill_file(list[j].name)),
            Ok(None) => forall|j: int|
                i <= j < list.len() ==> !(is_enclosed((#[trigger] list[j]).name) && is_skill_file(
                    list[j].name,
                )),
            Err(_) => false,
        },
    decreases list.len() - i,
{
    if i < list.len() {
        assert(list[i].info is Ok);
        law_first_skill_file_is_taken(list, i + 1);
    }
}

/// Where nothing ends the import, there is a step for each entry of the archive: what stands below the
/// folder of the skill is written, or made where it is a directory, at its place below the destination.
pub proof fn law_every_file_is_written(
    list: Seq<Entry>,
    prefix: Seq<char>,
    dest: Seq<char>,
    i: int,
    total: int,
    k: int,
    rel: Seq<char>,
)
    requires
        0 <= i <= k < list.len(),
        forall|j: int|
            0 <= j < extract_steps(list, prefix, dest, i, total).len() ==> !(#[trigger] extract_steps(
                list,
                prefix,
                dest,
                i,
                total,
            )[j] is Abort),
        list[k].name == prefix + rel,
        rel.len() > 0,
        !starts_with(list[k].name, "__MACOSX/"@),
    ensures
        extract_steps(list, prefix, dest, i, total).len() == list.len() - i,
        list[k].info is Ok,
        list[k].info->Ok_0.is_dir ==> extract_steps(list, prefix, dest, i, total)[k - i] == (
        StepModel::MakeDir(joined(dest, rel))),
        !list[k].info->Ok_0.is_dir ==> extract_steps(list, prefix, dest, i, total)[k - i] == (
        StepModel::Write(joined(dest, rel))),
    decreases list.len() - i,
{
    let steps = extract_steps(list, prefix, dest, i, total);
    assert(!(steps[0] is Abort));
    let info = list[i].info->Ok_0;
    let step = extract_step(list[i].name, info, prefix, dest, total);
    let next = if step is Write {
        total + info.size
    } else {
        total
    };
    let rest = extract_steps(list, prefix, dest, i + 1, next);
    assert(steps == seq![step] + rest);
    assert forall|j: int| 0 <= j < rest.len() implies !(#[trigger] rest[j] is Abort) by {
        assert(rest[j] == steps[j + 1]);
    }
    if i == k {
        assert(list[k].name.subrange(0, prefix.len() as int) =~= prefix);
        assert(list[k].name.skip(prefix.len() as int) =~= rel);
        lemma_steps_len(list, prefix, dest, i + 1, next);
    } else {
        law_every_file_is_written(list, prefix, dest, i + 1, next, k, rel);
        assert(steps[k - i] == rest[k - i - 1]);
    }
}

proof fn lemma_steps_len(
    list: Seq<Entry>,
    prefix: Seq<char>,
    dest: Seq<char>,
    i: int,
    total: int,
)
    requires
        0 <= i <= list.len(),
        forall|j: int|
            0 <= j < extract_steps(list, prefix, dest, i, total).len() ==> !(#[trigger] extract_steps(
                list,
                prefix,
                dest,
                i,
                total,
            )[j] is Abort),
    ensures
        extract_steps(list, prefix, dest, i, total).len() == list.len() - i,
    decreases list.len() - i,
{
    if i < list.len() {
        let steps = extract_steps(list, prefix, dest, i, total);
        assert(!(steps[0] is Abort));
        let info = list[i].info->Ok_0;
        let step = extract_step(list[i].name, info, prefix, dest, total);
        let next = if step is Write {
            total + info.size
        } else {
            total
        };
        let rest = extract_steps(list, prefix, dest, i + 1, next);
        assert(steps == seq![step] + rest);
        assert forall|j: int| 0 <= j < rest.len() implies !(#[trigger] rest[j] is Abort) by {
            assert(rest[j] == steps[j + 1]);
        }
        lemma_steps_len(list, prefix, dest, i + 1, next);
    }
}

} // verus!
