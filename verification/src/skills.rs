//! Skills: directories with a `SKILL.md`, which are read, listed, installed and removed.
use vstd::prelude::*;
use vstd::string::*;

use crate::archive::{
    enclosed, entry_at, entry_names, is_enclosed, open_zip, text_at, zip_entries, zip_names,
    zip_read, Entry, ZipEntry,
};
use crate::file_store::{join_path, joined};
use crate::order::{least_first, order_least_first, place_list, places, sorted, text_before};
use crate::skill_review::{review_badge, review_from, NamedReview, ReviewBadge};
use crate::text::{
    char_lowercase, chars_of, concat2, concat3, cut, decimal, decimal_of, ends_with, has_prefix,
    is_ascii_alnum, is_upper, lemma_strip_end_prefix, lemma_texts_push, lines, lines_of, lower_char, opt_text, same, slice,
    split_once, starts_with, string_of, strip_both, strip_end, strip_prefix, stripped_both,
    stripped_end, texts, to_lowercase_char, trim, trimmed, without_prefix,
};

verus! {

/// A skill that was read: its name, what it is for, the text of its `SKILL.md`, and its directory.
pub struct Skill {
    pub name: String,
    pub description: String,
    pub content: String,
    pub dir: String,
}

/// A skill, read as its texts.
pub struct SkillModel {
    pub name: Seq<char>,
    pub description: Seq<char>,
    pub content: Seq<char>,
    pub dir: Seq<char>,
}

impl Skill {
    /// The texts of a skill.
    pub open spec fn model(self) -> SkillModel {
        SkillModel {
            name: self.name@,
            description: self.description@,
            content: self.content@,
            dir: self.dir@,
        }
    }
}

/// The texts of skills.
pub open spec fn skill_models(v: Seq<Skill>) -> Seq<SkillModel> {
    Seq::new(v.len(), |i: int| v[i].model())
}

/// A skill as it is listed. `path` is the directory that holds its `SKILL.md`.
pub struct SkillInfo {
    pub name: String,
    pub description: String,
    pub path: String,
    pub review: Option<ReviewBadge>,
}

// ---------------------------------------------------------------------------------------------
// SKILL.md
// ---------------------------------------------------------------------------------------------
/// What a `SKILL.md` says, read as its texts.
pub struct SkillText {
    pub name: Seq<char>,
    pub description: Seq<char>,
    pub content: Seq<char>,
}

/// A value of the frontmatter: trimmed, and without quotes.
pub open spec fn skill_value(v: Seq<char>) -> Seq<char> {
    strip_both(strip_both(trim(v), '"'), '\'')
}

/// The last name and the last description in lines of frontmatter.
pub open spec fn skill_fields(list: Seq<Seq<char>>) -> (Seq<char>, Seq<char>)
    decreases list.len(),
{
    if list.len() == 0 {
        (Seq::empty(), Seq::empty())
    } else {
        let before = skill_fields(list.drop_last());
        match strip_prefix(list.last(), "name:"@) {
            Some(v) => (skill_value(v), before.1),
            None => match strip_prefix(list.last(), "description:"@) {
                Some(v) => (before.0, skill_value(v)),
                None => before,
            },
        }
    }
}

/// What a `SKILL.md` says: it starts with frontmatter between two rows of dashes, and has a name.
pub open spec fn skill_text(text: Seq<char>) -> Option<SkillText> {
    match strip_prefix(text, "---"@) {
        None => None,
        Some(body) => match split_once(body, "---"@) {
            None => None,
            Some((front, rest)) => {
                let f = skill_fields(lines(front));
                if f.0.len() == 0 {
                    None
                } else {
                    Some(SkillText { name: f.0, description: f.1, content: trim(rest) })
                }
            },
        },
    }
}

fn value_in(v: &str) -> (r: String)
    ensures
        r@ == skill_value(v@),
{
    stripped_both(stripped_both(trimmed(v).as_str(), '"').as_str(), '\'')
}

fn fields_in(front: &Vec<String>) -> (r: (String, String))
    ensures
        r.0@ == skill_fields(texts(front@)).0,
        r.1@ == skill_fields(texts(front@)).1,
{
    let ghost all = texts(front@);
    let mut name = String::new();
    let mut description = String::new();
    let mut i: usize = 0;
    while i < front.len()
        invariant
            i <= front.len(),
            all == texts(front@),
            name@ == skill_fields(all.take(i as int)).0,
            description@ == skill_fields(all.take(i as int)).1,
        decreases front.len() - i,
    {
        proof {
            assert(all.take(i + 1).drop_last() =~= all.take(i as int));
            assert(all.take(i + 1).last() == front@[i as int]@);
        }
        match without_prefix(front[i].as_str(), "name:") {
            Some(v) => {
                name = value_in(v.as_str());
            },
            None => match without_prefix(front[i].as_str(), "description:") {
                Some(v) => {
                    description = value_in(v.as_str());
                },
                None => {},
            },
        }
        i += 1;
    }
    assert(all.take(all.len() as int) =~= all);
    (name, description)
}

/// Reads a `SKILL.md`: its name, its description, and the text behind the frontmatter.
pub fn parse_skill_md(text: &str) -> (r: Option<(String, String, String)>)
    ensures
        match skill_text(text@) {
            Some(t) => r is Some && (r->0).0@ == t.name && (r->0).1@ == t.description && (r->0).2@
                == t.content,
            None => r is None,
        },
{
    proof {
        reveal_strlit("---");
    }
    match without_prefix(text, "---") {
        Some(body) => match cut(body.as_str(), "---") {
            Some((front, rest)) => {
                let list = lines_of(front.as_str());
                let (name, description) = fields_in(&list);
                if name.as_str().is_empty() {
                    None
                } else {
                    Some((name, description, trimmed(rest.as_str())))
                }
            },
            None => None,
        },
        None => None,
    }
}

// ---------------------------------------------------------------------------------------------
// Names
// ---------------------------------------------------------------------------------------------
/// Whether a character stands in the name of a tool as it is.
pub open spec fn is_plain(c: char) -> bool {
    is_ascii_alnum(c) || c == '_'
}

/// A character in lower case, which may be several characters.
pub open spec fn low_char(c: char) -> Seq<char> {
    if (c as u32) < 0x80 {
        seq![lower_char(c)]
    } else {
        char_lowercase(c)
    }
}

/// A text in lower case, character by character.
pub open spec fn low_chars(s: Seq<char>) -> Seq<char>
    decreases s.len(),
{
    if s.len() == 0 {
        Seq::empty()
    } else {
        low_chars(s.drop_last()) + low_char(s.last())
    }
}

/// One more character of a name: a plain one stands for itself, and any other for a dash, unless
/// the name begins or a dash stands there already.
pub open spec fn dashed_on(out: Seq<char>, c: char) -> Seq<char> {
    if is_plain(c) {
        out.push(c)
    } else if out.len() > 0 && out.last() != '-' {
        out.push('-')
    } else {
        out
    }
}

/// A text with rows of other characters as single dashes.
pub open spec fn dashed(s: Seq<char>) -> Seq<char>
    decreases s.len(),
{
    if s.len() == 0 {
        Seq::empty()
    } else {
        dashed_on(dashed(s.drop_last()), s.last())
    }
}

/// The legal form of a skill's name, where something of it is left.
pub open spec fn legal_name(name: Seq<char>) -> Option<Seq<char>> {
    let out = strip_end(dashed(low_chars(name)), "-"@);
    if out.len() > 0 {
        Some(out)
    } else {
        None
    }
}

fn plain_char(c: char) -> (r: bool)
    ensures
        r == is_plain(c),
{
    ('a' <= c && c <= 'z') || ('A' <= c && c <= 'Z') || ('0' <= c && c <= '9') || c == '_'
}

fn low_word(name: &str) -> (r: Vec<char>)
    ensures
        r@ == low_chars(name@),
        forall|i: int| 0 <= i < r@.len() ==> !is_upper(#[trigger] r@[i]),
{
    let a = chars_of(name);
    let mut out: Vec<char> = Vec::new();
    let mut i: usize = 0;
    while i < a.len()
        invariant
            i <= a.len(),
            a@ == name@,
            out@ == low_chars(name@.take(i as int)),
            forall|j: int| 0 <= j < out@.len() ==> !is_upper(#[trigger] out@[j]),
        decreases a.len() - i,
    {
        proof {
            assert(name@.take(i + 1).drop_last() =~= name@.take(i as int));
            assert(name@.take(i + 1).last() == name@[i as int]);
        }
        let mut low = chars_of(to_lowercase_char(a[i]).as_str());
        let ghost before = out@;
        out.append(&mut low);
        assert(out@ =~= before + low_char(a@[i as int]));
        i += 1;
    }
    assert(name@.take(name@.len() as int) =~= name@);
    out
}

/// The legal form of a skill's name, as tools are named: letters in lower case, digits, underscores
/// and dashes. The legal form of such a name is the name itself.
pub fn sanitize_name(name: &str) -> (r: Option<String>)
    ensures
        opt_text(r) == legal_name(name@),
        match r {
            Some(s) => {
                &&& is_legal(s@)
                &&& forall|i: int| 0 <= i < s@.len() ==> !is_upper(#[trigger] s@[i])
                &&& legal_name(s@) == Some(s@)
            },
            None => true,
        },
{
    let a = low_word(name);
    let mut out: Vec<char> = Vec::new();
    let mut i: usize = 0;
    while i < a.len()
        invariant
            i <= a.len(),
            a@ == low_chars(name@),
            out@ == dashed(a@.take(i as int)),
            forall|j: int| 0 <= j < a@.len() ==> !is_upper(#[trigger] a@[j]),
            forall|j: int| 0 <= j < out@.len() ==> !is_upper(#[trigger] out@[j]),
        decreases a.len() - i,
    {
        proof {
            assert(a@.take(i + 1).drop_last() =~= a@.take(i as int));
            assert(a@.take(i + 1).last() == a@[i as int]);
        }
        if plain_char(a[i]) {
            out.push(a[i]);
        } else if out.len() > 0 && out[out.len() - 1] != '-' {
            out.push('-');
        }
        i += 1;
    }
    proof {
        assert(a@.take(a@.len() as int) =~= a@);
        reveal_strlit("-");
    }
    let s = stripped_end(string_of(&out).as_str(), "-");
    if s.as_str().is_empty() {
        None
    } else {
        proof {
            lemma_strip_end_prefix(out@, "-"@);
            law_sanitized_is_legal(name@);
            assert forall|j: int| 0 <= j < s@.len() implies !is_upper(#[trigger] s@[j]) by {
                assert(s@[j] == out@[j]);
            }
            law_legal_names_are_kept(s@);
        }
        Some(s)
    }
}

/// Whether a text is a legal name: plain characters with single dashes between.
pub open spec fn is_legal(s: Seq<char>) -> bool {
    &&& s.len() > 0
    &&& forall|i: int| 0 <= i < s.len() ==> is_plain(#[trigger] s[i]) || s[i] == '-'
    &&& s[0] != '-' && s.last() != '-'
    &&& forall|i: int| 0 < i < s.len() ==> !(s[i - 1] == '-' && #[trigger] s[i] == '-')
}

/// What `dashed` gives is legal but for a dash at its end.
proof fn lemma_dashed(s: Seq<char>)
    ensures
        ({
            let d = dashed(s);
            &&& forall|i: int| 0 <= i < d.len() ==> is_plain(#[trigger] d[i]) || d[i] == '-'
            &&& d.len() > 0 ==> d[0] != '-'
            &&& forall|i: int| 0 < i < d.len() ==> !(d[i - 1] == '-' && #[trigger] d[i] == '-')
        }),
    decreases s.len(),
{
    if s.len() > 0 {
        lemma_dashed(s.drop_last());
        let b = dashed(s.drop_last());
        let d = dashed(s);
        assert forall|i: int| 0 < i < d.len() implies !(d[i - 1] == '-' && #[trigger] d[i]
            == '-') by {
            if i < b.len() {
                assert(b[i] == d[i] && b[i - 1] == d[i - 1]);
            }
        }
    }
}

/// The legal form of a name is a legal name.
pub proof fn law_sanitized_is_legal(name: Seq<char>)
    ensures
        match legal_name(name) {
            Some(s) => is_legal(s),
            None => true,
        },
{
    reveal_strlit("-");
    let d = dashed(low_chars(name));
    lemma_dashed(low_chars(name));
    lemma_strip_end_prefix(d, "-"@);
    let s = strip_end(d, "-"@);
    if s.len() > 0 {
        lemma_strip_end_done(d, "-"@);
        assert(s == d.take(s.len() as int));
        assert forall|i: int| 0 < i < s.len() implies !(s[i - 1] == '-' && #[trigger] s[i]
            == '-') by {
            assert(s[i] == d[i] && s[i - 1] == d[i - 1]);
        }
        assert forall|i: int| 0 <= i < s.len() implies is_plain(#[trigger] s[i]) || s[i] == '-' by {
            assert(s[i] == d[i]);
        }
        if s.last() == '-' {
            assert(s.subrange(s.len() - 1, s.len() as int) =~= "-"@);
        }
    }
}

/// Behind a strip nothing is left to strip.
proof fn lemma_strip_end_done(s: Seq<char>, pat: Seq<char>)
    requires
        pat.len() > 0,
    ensures
        !ends_with(strip_end(s, pat), pat),
    decreases s.len(),
{
    if ends_with(s, pat) {
        lemma_strip_end_done(s.take(s.len() - pat.len()), pat);
    }
}

proof fn lemma_legal_is_kept(s: Seq<char>)
    requires
        forall|i: int| 0 <= i < s.len() ==> is_plain(#[trigger] s[i]) || s[i] == '-',
        s.len() > 0 ==> s[0] != '-',
        forall|i: int| 0 < i < s.len() ==> !(s[i - 1] == '-' && #[trigger] s[i] == '-'),
        forall|i: int| 0 <= i < s.len() ==> !is_upper(#[trigger] s[i]),
    ensures
        low_chars(s) == s,
        dashed(s) == s,
    decreases s.len(),
{
    if s.len() > 0 {
        let b = s.drop_last();
        assert forall|i: int| 0 < i < b.len() implies !(b[i - 1] == '-' && #[trigger] b[i]
            == '-') by {
            assert(b[i] == s[i]);
        }
        lemma_legal_is_kept(b);
        assert(!is_upper(s[s.len() - 1]));
        assert(low_char(s.last()) =~= seq![s.last()]);
        assert(b + seq![s.last()] =~= s);
        if s.last() == '-' {
            assert(s[s.len() - 1] == '-');
            assert(b.len() > 0);
            assert(b.last() == s[s.len() - 2]);
        }
        assert(b.push(s.last()) =~= s);
    } else {
        assert(low_chars(s) =~= s);
        assert(dashed(s) =~= s);
    }
}

/// A legal name in lower case is its own legal form: installing a skill under it and deleting it by
/// it speak of the same directory.
pub proof fn law_legal_names_are_kept(name: Seq<char>)
    requires
        is_legal(name),
        forall|i: int| 0 <= i < name.len() ==> !is_upper(#[trigger] name[i]),
    ensures
        legal_name(name) == Some(name),
{
    reveal_strlit("-");
    lemma_legal_is_kept(name);
    if ends_with(name, "-"@) {
        assert(name.subrange(name.len() - 1, name.len() as int)[0] == name.last());
        assert("-"@[0] == '-');
    }
}

// ---------------------------------------------------------------------------------------------
// Listing
// ---------------------------------------------------------------------------------------------
/// A directory in the directory of skills, and its `SKILL.md` where that can be read.
pub struct SkillDir {
    pub path: String,
    pub text: Option<String>,
}

/// The skill that a directory holds, if it holds one.
pub open spec fn skill_in(d: SkillDir) -> Option<SkillModel> {
    match d.text {
        None => None,
        Some(text) => match skill_text(text@) {
            None => None,
            Some(t) => match legal_name(t.name) {
                None => None,
                Some(name) => Some(
                    SkillModel {
                        name,
                        description: t.description,
                        content: t.content,
                        dir: d.path@,
                    },
                ),
            },
        },
    }
}

/// The skills that directories hold.
pub open spec fn skills_in(dirs: Seq<SkillDir>) -> Seq<SkillModel>
    decreases dirs.len(),
{
    if dirs.len() == 0 {
        Seq::empty()
    } else {
        let before = skills_in(dirs.drop_last());
        match skill_in(dirs.last()) {
            Some(s) => before.push(s),
            None => before,
        }
    }
}

/// Skills by their names.
pub open spec fn by_name() -> spec_fn(SkillModel, SkillModel) -> bool {
    |a: SkillModel, b: SkillModel| text_before(a.name, b.name)
}

/// The skills that directories hold, by their names.
pub open spec fn listed_skills(dirs: Seq<SkillDir>) -> Seq<SkillModel> {
    sorted(skills_in(dirs), by_name())
}

/// The skill that a directory holds, if it holds one.
pub fn read_skill(d: &SkillDir) -> (r: Option<Skill>)
    ensures
        match r {
            Some(s) => skill_in(*d) == Some(s.model()),
            None => skill_in(*d) is None,
        },
{
    match &d.text {
        None => None,
        Some(text) => match parse_skill_md(text.as_str()) {
            None => None,
            Some((name, description, content)) => match sanitize_name(name.as_str()) {
                None => None,
                Some(name) => Some(Skill { name, description, content, dir: d.path.clone() }),
            },
        },
    }
}

/// The skills that directories hold, by their names.
pub fn scan(dirs: &Vec<SkillDir>) -> (r: Vec<Skill>)
    ensures
        skill_models(r@) == listed_skills(dirs@),
{
    let mut out: Vec<Skill> = Vec::new();
    let mut i: usize = 0;
    assert(skill_models(out@) =~= sorted(skills_in(dirs@.take(0)), by_name()));
    while i < dirs.len()
        invariant
            i <= dirs.len(),
            skill_models(out@) == sorted(skills_in(dirs@.take(i as int)), by_name()),
        decreases dirs.len() - i,
    {
        proof {
            assert(dirs@.take(i + 1).drop_last() =~= dirs@.take(i as int));
            assert(dirs@.take(i + 1).last() == dirs@[i as int]);
        }
        if let Some(s) = read_skill(&dirs[i]) {
            let ghost list = skill_models(out@);
            let ghost x = s.model();
            let ghost before = skills_in(dirs@.take(i as int));
            let mut k: usize = out.len();
            while k > 0 && crate::order::goes_before(s.name.as_str(), out[k - 1].name.as_str())
                invariant
                    k <= out.len(),
                    list == skill_models(out@),
                    x == s.model(),
                    crate::order::place(list, x, by_name(), list.len() as int)
                        == crate::order::place(list, x, by_name(), k as int),
                decreases k,
            {
                assert(list[k - 1] == out@[k - 1].model());
                k -= 1;
            }
            proof {
                if k > 0 {
                    assert(list[k - 1] == out@[k - 1].model());
                }
            }
            out.insert(k, s);
            proof {
                assert(skill_models(out@) =~= list.insert(k as int, x));
                assert(before.push(x).drop_last() =~= before);
            }
        }
        i += 1;
    }
    assert(dirs@.take(dirs.len() as int) =~= dirs@);
    out
}

/// Listed skills stand in the order of their names, and none is lost.
pub proof fn law_skills_by_name(dirs: Seq<SkillDir>)
    ensures
        crate::order::in_order(listed_skills(dirs), by_name()),
        listed_skills(dirs).to_multiset() == skills_in(dirs).to_multiset(),
{
    let before = by_name();
    assert forall|a: SkillModel, b: SkillModel| #[trigger] before(a, b) implies !before(b, a) by {
        crate::order::lemma_text_before(a.name, b.name, b.name);
    }
    assert forall|a: SkillModel, b: SkillModel, c: SkillModel| #[trigger]
        before(a, c) implies #[trigger] before(a, b) || #[trigger] before(b, c) by {
        crate::order::lemma_text_before(a.name, b.name, c.name);
    }
    crate::order::law_sorted(skills_in(dirs), before);
}

/// A skill as it is listed, with the last verdict on it.
pub fn skill_info(s: &Skill, review: Option<ReviewBadge>) -> (r: SkillInfo)
    ensures
        r.name@ == s.name@,
        r.description@ == s.description@,
        r.path@ == s.dir@,
        r.review == review,
{
    SkillInfo {
        name: s.name.clone(),
        description: s.description.clone(),
        path: s.dir.clone(),
        review,
    }
}

/// The digest of what a directory holds.
pub struct DirDigest {
    pub dir: String,
    pub hash: String,
}

/// The digest of a directory, or the empty text where it is not known.
pub open spec fn digest_of(list: Seq<DirDigest>, dir: Seq<char>, i: int) -> Seq<char>
    decreases list.len() - i,
{
    if i < 0 || i >= list.len() {
        Seq::empty()
    } else if list[i].dir@ == dir {
        list[i].hash@
    } else {
        digest_of(list, dir, i + 1)
    }
}

fn find_digest(list: &Vec<DirDigest>, dir: &str) -> (r: String)
    ensures
        r@ == digest_of(list@, dir@, 0),
{
    let mut i: usize = 0;
    while i < list.len()
        invariant
            i <= list.len(),
            digest_of(list@, dir@, 0) == digest_of(list@, dir@, i as int),
        decreases list.len() - i,
    {
        if same(list[i].dir.as_str(), dir) {
            return list[i].hash.clone();
        }
        i += 1;
    }
    String::new()
}

/// Whether a skill is listed as it is, with the last verdict on it, which is stale where the skill has
/// changed since.
pub open spec fn is_listed_as(
    s: SkillModel,
    digests: Seq<DirDigest>,
    reviews: Seq<NamedReview>,
    r: SkillInfo,
) -> bool {
    &&& r.name@ == s.name
    &&& r.description@ == s.description
    &&& r.path@ == s.dir
    &&& match review_from(reviews, s.name, 0) {
        Some(k) => r.review is Some && r.review->0.verdict@ == reviews[k].record.verdict@
            && r.review->0.stale == (reviews[k].record.content_hash@ != digest_of(
            digests,
            s.dir,
            0,
        )),
        None => r.review is None,
    }
}

/// All skills by their names, each with the last verdict on it.
pub fn list_all(dirs: &Vec<SkillDir>, digests: &Vec<DirDigest>, reviews: &Vec<NamedReview>) -> (r:
    Vec<SkillInfo>)
    ensures
        r.len() == listed_skills(dirs@).len(),
        forall|i: int|
            0 <= i < r.len() ==> is_listed_as(
                listed_skills(dirs@)[i],
                digests@,
                reviews@,
                #[trigger] r@[i],
            ),
{
    let list = scan(dirs);
    let ghost models = listed_skills(dirs@);
    assert(skill_models(list@).len() == list.len());
    let mut out: Vec<SkillInfo> = Vec::new();
    let mut i: usize = 0;
    while i < list.len()
        invariant
            i <= list.len(),
            models == skill_models(list@),
            out.len() == i,
            forall|k: int|
                0 <= k < i ==> is_listed_as(models[k], digests@, reviews@, #[trigger] out@[k]),
        decreases list.len() - i,
    {
        assert(models[i as int] == list@[i as int].model());
        let hash = find_digest(digests, list[i].dir.as_str());
        let badge = review_badge(reviews, list[i].name.as_str(), hash.as_str());
        out.push(skill_info(&list[i], badge));
        i += 1;
    }
    out
}

/// The first skill of a name from `i` on.
pub open spec fn skill_named(list: Seq<SkillModel>, name: Seq<char>, i: int) -> Option<SkillModel>
    decreases list.len() - i,
{
    if i < 0 || i >= list.len() {
        None
    } else if list[i].name == name {
        Some(list[i])
    } else {
        skill_named(list, name, i + 1)
    }
}

/// The skill of a name, and its directory.
pub fn get(dirs: &Vec<SkillDir>, name: &str) -> (r: Option<(Skill, String)>)
    ensures
        match skill_named(listed_skills(dirs@), name@, 0) {
            Some(s) => r is Some && (r->0).0.model() == s && (r->0).1@ == s.dir,
            None => r is None,
        },
{
    let list = scan(dirs);
    let ghost models = skill_models(list@);
    let mut i: usize = 0;
    while i < list.len()
        invariant
            i <= list.len(),
            models == skill_models(list@),
            models == listed_skills(dirs@),
            skill_named(models, name@, 0) == skill_named(models, name@, i as int),
        decreases list.len() - i,
    {
        assert(models[i as int] == list@[i as int].model());
        if same(list[i].name.as_str(), name) {
            let s = Skill {
                name: list[i].name.clone(),
                description: list[i].description.clone(),
                content: list[i].content.clone(),
                dir: list[i].dir.clone(),
            };
            let path = list[i].dir.clone();
            return Some((s, path));
        }
        i += 1;
    }
    None
}

// ---------------------------------------------------------------------------------------------
// The files of a skill
// ---------------------------------------------------------------------------------------------
/// A file or a directory.
pub struct Named {
    pub name: String,
    pub is_dir: bool,
}

/// A file, or a directory with what it holds.
pub struct Listed {
    pub name: String,
    pub is_dir: bool,
    pub inside: Vec<Named>,
}

/// The places of a list by the names at them.
pub open spec fn by_names(names: Seq<Seq<char>>) -> Seq<int> {
    sorted(places(names.len()), least_first(names))
}

/// The names in a directory.
pub open spec fn inner_names(v: Seq<Named>) -> Seq<Seq<char>> {
    Seq::new(v.len(), |i: int| v[i].name@)
}

/// The names in a skill's directory.
pub open spec fn outer_names(v: Seq<Listed>) -> Seq<Seq<char>> {
    Seq::new(v.len(), |i: int| v[i].name@)
}

/// How an entry is shown: a directory with a slash at its end.
pub open spec fn shown(path: Seq<char>, is_dir: bool) -> Seq<char> {
    if is_dir {
        path + "/"@
    } else {
        path
    }
}

/// What is shown of a directory inside a skill: its entries at the given places, but for hidden ones.
pub open spec fn inner_files(dir: Seq<char>, v: Seq<Named>, at: Seq<int>) -> Seq<Seq<char>>
    decreases at.len(),
{
    if at.len() == 0 {
        Seq::empty()
    } else {
        let before = inner_files(dir, v, at.drop_last());
        let e = v[at.last()];
        if starts_with(e.name@, "."@) {
            before
        } else {
            before.push(shown(joined(dir, e.name@), e.is_dir))
        }
    }
}

/// What is shown of one entry of a skill's directory: nothing of hidden entries and of `SKILL.md`, and
/// of a directory what is in it too.
pub open spec fn entry_files(e: Listed) -> Seq<Seq<char>> {
    if starts_with(e.name@, "."@) || e.name@ == "SKILL.md"@ {
        Seq::empty()
    } else if e.is_dir {
        seq![shown(e.name@, true)] + inner_files(e.name@, e.inside@, by_names(inner_names(e.inside@)))
    } else {
        seq![shown(e.name@, false)]
    }
}

/// What is shown of a skill's directory, by name, without a limit.
pub open spec fn all_files(v: Seq<Listed>, at: Seq<int>) -> Seq<Seq<char>>
    decreases at.len(),
{
    if at.len() == 0 {
        Seq::empty()
    } else {
        all_files(v, at.drop_last()) + entry_files(v[at.last()])
    }
}

/// The first `n` items of a list, or all.
pub open spec fn first_items(s: Seq<Seq<char>>, n: int) -> Seq<Seq<char>> {
    if s.len() <= n {
        s
    } else {
        s.take(n)
    }
}

fn shown_name(path: &str, is_dir: bool) -> (r: String)
    ensures
        r@ == shown(path@, is_dir),
{
    if is_dir {
        concat2(path, "/")
    } else {
        path.to_owned()
    }
}

fn list_inside(dir: &str, v: &Vec<Named>) -> (r: Vec<String>)
    ensures
        texts(r@) == inner_files(dir@, v@, by_names(inner_names(v@))),
{
    let mut names: Vec<String> = Vec::new();
    let mut i: usize = 0;
    while i < v.len()
        invariant
            i <= v.len(),
            names.len() == i,
            forall|k: int| 0 <= k < i ==> #[trigger] names@[k]@ == v@[k].name@,
        decreases v.len() - i,
    {
        names.push(v[i].name.clone());
        i += 1;
    }
    assert(texts(names@) =~= inner_names(v@));
    let at = order_least_first(&names);
    let ghost all = place_list(at@);
    let mut out: Vec<String> = Vec::new();
    let mut j: usize = 0;
    assert(texts(out@) =~= inner_files(dir@, v@, all.take(0)));
    while j < at.len()
        invariant
            j <= at.len(),
            at.len() == v.len(),
            all == place_list(at@),
            forall|k: int| 0 <= k < at.len() ==> #[trigger] at@[k] < v.len(),
            texts(out@) == inner_files(dir@, v@, all.take(j as int)),
        decreases at.len() - j,
    {
        broadcast use lemma_texts_push;

        proof {
            assert(all.take(j + 1).drop_last() =~= all.take(j as int));
            assert(all.take(j + 1).last() == at@[j as int] as int);
        }
        let e = &v[at[j]];
        if !has_prefix(e.name.as_str(), ".") {
            out.push(shown_name(join_path(dir, e.name.as_str()).as_str(), e.is_dir));
        }
        j += 1;
    }
    assert(all.take(all.len() as int) =~= all);
    out
}

fn list_entry(e: &Listed) -> (r: Vec<String>)
    ensures
        texts(r@) == entry_files(*e),
{
    let mut out: Vec<String> = Vec::new();
    assert(texts(out@) =~= Seq::empty());
    if has_prefix(e.name.as_str(), ".") || same(e.name.as_str(), "SKILL.md") {
        return out;
    }
    out.push(shown_name(e.name.as_str(), e.is_dir));
    assert(texts(out@) =~= seq![shown(e.name@, e.is_dir)]);
    if e.is_dir {
        let mut inside = list_inside(e.name.as_str(), &e.inside);
        let ghost before = texts(out@);
        let ghost more = texts(inside@);
        out.append(&mut inside);
        assert(texts(out@) =~= before + more);
    }
    out
}

/// What a skill's directory holds, two levels deep and by name: at most fifty entries, without hidden
/// ones and without `SKILL.md`.
pub fn list_skill_files(v: &Vec<Listed>) -> (r: Vec<String>)
    ensures
        texts(r@) == first_items(all_files(v@, by_names(outer_names(v@))), 50),
{
    let mut names: Vec<String> = Vec::new();
    let mut i: usize = 0;
    while i < v.len()
        invariant
            i <= v.len(),
            names.len() == i,
            forall|k: int| 0 <= k < i ==> #[trigger] names@[k]@ == v@[k].name@,
        decreases v.len() - i,
    {
        names.push(v[i].name.clone());
        i += 1;
    }
    assert(texts(names@) =~= outer_names(v@));
    let at = order_least_first(&names);
    let ghost all = place_list(at@);
    let mut out: Vec<String> = Vec::new();
    let mut j: usize = 0;
    assert(texts(out@) =~= all_files(v@, all.take(0)));
    while j < at.len()
        invariant
            j <= at.len(),
            at.len() == v.len(),
            all == place_list(at@),
            forall|k: int| 0 <= k < at.len() ==> #[trigger] at@[k] < v.len(),
            texts(out@) == all_files(v@, all.take(j as int)),
        decreases at.len() - j,
    {
        proof {
            assert(all.take(j + 1).drop_last() =~= all.take(j as int));
            assert(all.take(j + 1).last() == at@[j as int] as int);
        }
        let mut more = list_entry(&v[at[j]]);
        let ghost before = texts(out@);
        let ghost added = texts(more@);
        out.append(&mut more);
        assert(texts(out@) =~= before + added);
        j += 1;
    }
    assert(all.take(all.len() as int) =~= all);
    if out.len() > 50 {
        let ghost whole = texts(out@);
        out.truncate(50);
        assert(texts(out@) =~= whole.take(50));
    }
    out
}

// ---------------------------------------------------------------------------------------------
// Installing
// ---------------------------------------------------------------------------------------------
/// What a skill is installed as, read as its texts.
pub struct InstallModel {
    pub name: Seq<char>,
    pub description: Seq<char>,
}

/// What a skill whose `SKILL.md` says `text` is installed as, or why it cannot be.
pub open spec fn installed_as(text: Seq<char>) -> Result<InstallModel, Seq<char>> {
    match skill_text(text) {
        None => Err("SKILL.md 缺少 name 前言字段"@),
        Some(t) => match legal_name(t.name) {
            None => Err("技能名无法转换为合法标识"@),
            Some(name) => Ok(InstallModel { name, description: t.description }),
        },
    }
}

/// What a skill is installed as: its legal name and its description.
pub fn install_as(text: &str) -> (r: Result<(String, String), String>)
    ensures
        match installed_as(text@) {
            Ok(m) => r is Ok && r->Ok_0.0@ == m.name && r->Ok_0.1@ == m.description,
            Err(e) => r is Err && r->Err_0@ == e,
        },
{
    match parse_skill_md(text) {
        None => Err("SKILL.md 缺少 name 前言字段".to_owned()),
        Some((name, description, _)) => match sanitize_name(name.as_str()) {
            None => Err("技能名无法转换为合法标识".to_owned()),
            Some(n) => Ok((n, description)),
        },
    }
}

/// What a skill in a folder is installed as. `text` is its `SKILL.md`, where that can be read.
pub fn import_folder(text: Option<String>) -> (r: Result<(String, String), String>)
    ensures
        match text {
            None => r is Err && r->Err_0@ == "所选文件夹中没有可读取的 SKILL.md"@,
            Some(t) => match installed_as(t@) {
                Ok(m) => r is Ok && r->Ok_0.0@ == m.name && r->Ok_0.1@ == m.description,
                Err(e) => r is Err && r->Err_0@ == e,
            },
        },
{
    match text {
        None => Err("所选文件夹中没有可读取的 SKILL.md".to_owned()),
        Some(t) => install_as(t.as_str()),
    }
}

/// A skill that is new, as it is listed below the directory of skills. A skill is not installed over
/// another.
pub fn new_skill(user_dir: &str, name: &str, description: &str, taken: bool) -> (r: Result<
    SkillInfo,
    String,
>)
    ensures
        match r {
            Ok(i) => !taken && i.name@ == name@ && i.description@ == description@ && i.path@
                == joined(user_dir@, name@) && i.review is None,
            Err(e) => taken && e@ == "已存在同名技能「"@ + name@ + "」，请先删除或改名"@,
        },
{
    if taken {
        return Err(concat3("已存在同名技能「", name, "」，请先删除或改名"));
    }
    Ok(
        SkillInfo {
            name: name.to_owned(),
            description: description.to_owned(),
            path: join_path(user_dir, name),
            review: None,
        },
    )
}

/// Whether a skill may be deleted: only by its legal name, and only where it is there.
pub fn delete(name: &str, is_there: bool) -> (r: Result<(), String>)
    ensures
        match r {
            Ok(_) => legal_name(name@) == Some(name@) && is_there,
            Err(e) => if legal_name(name@) != Some(name@) {
                e@ == "非法技能名"@
            } else {
                !is_there && e@ == "技能「"@ + name@ + "」不存在"@
            },
        },
{
    let safe = match sanitize_name(name) {
        Some(s) => s,
        None => {
            return Err("非法技能名".to_owned());
        },
    };
    if !same(safe.as_str(), name) {
        return Err("非法技能名".to_owned());
    }
    if !is_there {
        return Err(concat3("技能「", name, "」不存在"));
    }
    Ok(())
}

// ---------------------------------------------------------------------------------------------
// Archives
// ---------------------------------------------------------------------------------------------
/// How many entries an archive may have.
pub const ZIP_MAX_ENTRIES: usize = 512;

/// How many bytes an archive may unpack to.
pub const ZIP_MAX_TOTAL_BYTES: u64 = 52_428_800;

/// How often a character stands in a text.
pub open spec fn count_of(s: Seq<char>, c: char) -> nat
    decreases s.len(),
{
    if s.len() == 0 {
        0
    } else {
        count_of(s.drop_last(), c) + (if s.last() == c {
            1nat
        } else {
            0
        })
    }
}

/// Whether a path is that of a `SKILL.md` at the root of an archive or one folder deep.
pub open spec fn is_skill_file(path: Seq<char>) -> bool {
    !starts_with(path, "__MACOSX/"@) && count_of(path, '/') <= 1 && (path == "SKILL.md"@
        || ends_with(path, "/SKILL.md"@))
}

/// The place of the first `SKILL.md` from the `i`-th entry on, or why the entries cannot be read that
/// far.
pub open spec fn skill_entry(list: Seq<Entry>, i: int) -> Result<Option<int>, Seq<char>>
    decreases list.len() - i,
{
    if i < 0 || i >= list.len() {
        Ok(None)
    } else {
        match list[i].info {
            Err(e) => Err(e),
            Ok(_) => if is_enclosed(list[i].name) && is_skill_file(list[i].name) {
                Ok(Some(i))
            } else {
                skill_entry(list, i + 1)
            },
        }
    }
}

/// A skill in an archive, and the folder that it is in, with a slash behind it.
pub struct ZipSkill {
    pub name: String,
    pub description: String,
    pub prefix: String,
}

/// A skill in an archive, read as its texts.
pub struct ZipSkillModel {
    pub name: Seq<char>,
    pub description: Seq<char>,
    pub prefix: Seq<char>,
}

/// The skill in the entries of an archive, or why there is none that can be installed.
pub open spec fn zipped_skill(list: Seq<Entry>) -> Result<ZipSkillModel, Seq<char>> {
    if list.len() > ZIP_MAX_ENTRIES {
        Err("压缩包条目过多（"@ + decimal(list.len()) + "），上限 512"@)
    } else {
        match skill_entry(list, 0) {
            Err(e) => Err(e),
            Ok(None) => Err("压缩包中没有找到 SKILL.md（根目录或一层子目录内）"@),
            Ok(Some(k)) => match list[k].text {
                Err(e) => Err("读取 SKILL.md 失败："@ + e),
                Ok(text) => match installed_as(text) {
                    Err(e) => Err(e),
                    Ok(m) => Ok(
                        ZipSkillModel {
                            name: m.name,
                            description: m.description,
                            prefix: skill_folder(list[k].name),
                        },
                    ),
                },
            },
        }
    }
}

/// The folder of a `SKILL.md`, with a slash behind it, or nothing at the root.
pub open spec fn skill_folder(path: Seq<char>) -> Seq<char> {
    path.take(path.len() - 8)
}

/// The skill in an archive, or why there is none that can be installed.
pub open spec fn archived_skill(bytes: Seq<u8>) -> Result<ZipSkillModel, Seq<char>> {
    match zip_read(bytes) {
        Err(e) => Err("无法读取压缩包："@ + e),
        Ok(list) => zipped_skill(list),
    }
}

fn count_chars(a: &Vec<char>, c: char) -> (r: usize)
    ensures
        r == count_of(a@, c),
{
    let mut n: usize = 0;
    let mut i: usize = 0;
    while i < a.len()
        invariant
            i <= a.len(),
            n <= i,
            n == count_of(a@.take(i as int), c),
        decreases a.len() - i,
    {
        proof {
            assert(a@.take(i + 1).drop_last() =~= a@.take(i as int));
            assert(a@.take(i + 1).last() == a@[i as int]);
        }
        if a[i] == c {
            n += 1;
        }
        i += 1;
    }
    assert(a@.take(a.len() as int) =~= a@);
    n
}

/// Tells whether a path is that of a `SKILL.md` at the root of an archive or one folder deep.
pub fn skill_file(path: &str) -> (r: bool)
    ensures
        r == is_skill_file(path@),
{
    !has_prefix(path, "__MACOSX/") && count_chars(&chars_of(path), '/') <= 1 && (same(
        path,
        "SKILL.md",
    ) || crate::text::has_suffix(path, "/SKILL.md"))
}

fn folder_of_skill(path: &str) -> (r: String)
    requires
        is_skill_file(path@),
    ensures
        r@ == skill_folder(path@),
{
    proof {
        reveal_strlit("SKILL.md");
        reveal_strlit("/SKILL.md");
    }
    let a = chars_of(path);
    let n: usize = a.len();
    assert(a@.subrange(0, n - 8) =~= path@.take(n - 8));
    slice(&a, 0, n - 8)
}

fn find_skill(
    archive: &mut zip::ZipArchive<std::io::Cursor<&[u8]>>,
    names: &Vec<String>,
) -> (r: Result<Option<usize>, String>)
    requires
        texts(names@) == entry_names(zip_entries(*old(archive))),
    ensures
        zip_entries(*final(archive)) == zip_entries(*old(archive)),
        match r {
            Ok(Some(k)) => skill_entry(zip_entries(*old(archive)), 0) == Ok::<
                Option<int>,
                Seq<char>,
            >(Some(k as int)) && k < zip_entries(*old(archive)).len() && zip_entries(
                *old(archive),
            )[k as int].info is Ok && is_skill_file(names@[k as int]@),
            Ok(None) => skill_entry(zip_entries(*old(archive)), 0) == Ok::<Option<int>, Seq<char>>(
                None,
            ),
            Err(e) => skill_entry(zip_entries(*old(archive)), 0) == Err::<Option<int>, Seq<char>>(
                e@,
            ),
        },
{
    let ghost list = zip_entries(*archive);
    let ghost all = texts(names@);
    assert(all.len() == names@.len());
    let mut i: usize = 0;
    while i < names.len()
        invariant
            i <= names.len(),
            names@.len() == list.len(),
            all == texts(names@),
            all == entry_names(list),
            list == zip_entries(*old(archive)),
            zip_entries(*archive) == list,
            skill_entry(list, 0) == skill_entry(list, i as int),
        decreases names.len() - i,
    {
        assert(all[i as int] == names@[i as int]@);
        assert(all[i as int] == list[i as int].name);
        match entry_at(archive, i) {
            Err(e) => {
                return Err(e);
            },
            Ok(_) => {
                if enclosed(names[i].as_str()) && skill_file(names[i].as_str()) {
                    return Ok(Some(i));
                }
            },
        }
        i += 1;
    }
    Ok(None)
}

/// The skill in an archive, or why there is none that can be installed.
pub fn import_zip(bytes: &[u8]) -> (r: Result<ZipSkill, String>)
    ensures
        match archived_skill(bytes@) {
            Ok(m) => r is Ok && r->Ok_0.name@ == m.name && r->Ok_0.description@ == m.description
                && r->Ok_0.prefix@ == m.prefix,
            Err(e) => r is Err && r->Err_0@ == e,
        },
{
    let mut archive = match open_zip(bytes) {
        Ok(a) => a,
        Err(e) => {
            return Err(concat2("无法读取压缩包：", e.as_str()));
        },
    };
    let names = zip_names(&archive);
    let ghost list = zip_entries(archive);
    assert(texts(names@).len() == names@.len());
    let n: usize = names.len();
    if n > ZIP_MAX_ENTRIES {
        return Err(
            concat3("压缩包条目过多（", decimal_of(n as u64).as_str(), "），上限 512"),
        );
    }
    match find_skill(&mut archive, &names) {
        Err(e) => Err(e),
        Ok(None) => Err("压缩包中没有找到 SKILL.md（根目录或一层子目录内）".to_owned()),
        Ok(Some(k)) => match text_at(&mut archive, k) {
            Err(e) => Err(concat2("读取 SKILL.md 失败：", e.as_str())),
            Ok(text) => match install_as(text.as_str()) {
                Err(e) => Err(e),
                Ok((name, description)) => {
                    assert(texts(names@)[k as int] == names@[k as int]@);
                    assert(entry_names(list)[k as int] == list[k as int].name);
                    Ok(ZipSkill { name, description, prefix: folder_of_skill(names[k].as_str()) })
                },
            },
        },
    }
}

/// What is done with an entry of an archive when a skill is unpacked.
pub enum ExtractStep {
    /// The entry is left out.
    Skip,
    /// A directory is made.
    MakeDir(String),
    /// The entry is written to a file.
    Write(String),
    /// The import ends; with `clean`, what was written is removed.
    Abort { message: String, clean: bool },
}

/// What is done with an entry, read as texts.
pub enum StepModel {
    Skip,
    MakeDir(Seq<char>),
    Write(Seq<char>),
    Abort { message: Seq<char>, clean: bool },
}

impl ExtractStep {
    /// The texts of a step.
    pub open spec fn model(self) -> StepModel {
        match self {
            ExtractStep::Skip => StepModel::Skip,
            ExtractStep::MakeDir(p) => StepModel::MakeDir(p@),
            ExtractStep::Write(p) => StepModel::Write(p@),
            ExtractStep::Abort { message, clean } => StepModel::Abort { message: message@, clean },
        }
    }
}

/// The steps, read as texts.
pub open spec fn step_models(v: Seq<ExtractStep>) -> Seq<StepModel> {
    Seq::new(v.len(), |i: int| v[i].model())
}

/// The end of an import for an entry that leads out of its directory.
pub open spec fn illegal_path() -> StepModel {
    StepModel::Abort { message: "压缩包含有非法路径条目，已中止导入"@, clean: false }
}

/// What is done with an entry where `total` bytes are written already: what is not below the folder
/// of the skill is left out, what leads out of the directory of the archive or of the skill ends the
/// import, and the limit on the bytes holds.
pub open spec fn extract_step(
    name: Seq<char>,
    info: ZipEntry,
    prefix: Seq<char>,
    dest: Seq<char>,
    total: int,
) -> StepModel {
    if !is_enclosed(name) {
        illegal_path()
    } else if starts_with(name, "__MACOSX/"@) {
        StepModel::Skip
    } else {
        match strip_prefix(name, prefix) {
            None => StepModel::Skip,
            Some(rel) => if rel.len() == 0 {
                StepModel::Skip
            } else if !is_enclosed(rel) {
                illegal_path()
            } else if info.is_dir {
                StepModel::MakeDir(joined(dest, rel))
            } else if total + info.size > ZIP_MAX_TOTAL_BYTES {
                StepModel::Abort { message: "压缩包解压后超过 50MB，已中止导入"@, clean: true }
            } else {
                StepModel::Write(joined(dest, rel))
            },
        }
    }
}

/// The steps from the `i`-th entry on: one for each entry, up to the first that ends the import.
pub open spec fn extract_steps(
    list: Seq<Entry>,
    prefix: Seq<char>,
    dest: Seq<char>,
    i: int,
    total: int,
) -> Seq<StepModel>
    decreases list.len() - i,
{
    if i < 0 || i >= list.len() {
        Seq::empty()
    } else {
        match list[i].info {
            Err(e) => seq![StepModel::Abort { message: e, clean: false }],
            Ok(info) => {
                let step = extract_step(list[i].name, info, prefix, dest, total);
                if step is Abort {
                    seq![step]
                } else {
                    seq![step] + extract_steps(
                        list,
                        prefix,
                        dest,
                        i + 1,
                        if step is Write {
                            total + info.size
                        } else {
                            total
                        },
                    )
                }
            },
        }
    }
}

fn illegal_entry() -> (r: ExtractStep)
    ensures
        r.model() == illegal_path(),
{
    ExtractStep::Abort {
        message: "压缩包含有非法路径条目，已中止导入".to_owned(),
        clean: false,
    }
}

/// What is done with an entry where `total` bytes are written already.
pub fn step_for(name: &str, entry: ZipEntry, prefix: &str, dest: &str, total: u64) -> (r:
    ExtractStep)
    requires
        total <= ZIP_MAX_TOTAL_BYTES,
    ensures
        r.model() == extract_step(name@, entry, prefix@, dest@, total as int),
{
    if !enclosed(name) {
        return illegal_entry();
    }
    if has_prefix(name, "__MACOSX/") {
        return ExtractStep::Skip;
    }
    match without_prefix(name, prefix) {
        None => ExtractStep::Skip,
        Some(rel) => if rel.as_str().is_empty() {
            ExtractStep::Skip
        } else if !enclosed(rel.as_str()) {
            illegal_entry()
        } else if entry.is_dir {
            ExtractStep::MakeDir(join_path(dest, rel.as_str()))
        } else if entry.size > ZIP_MAX_TOTAL_BYTES - total {
            ExtractStep::Abort {
                message: "压缩包解压后超过 50MB，已中止导入".to_owned(),
                clean: true,
            }
        } else {
            ExtractStep::Write(join_path(dest, rel.as_str()))
        },
    }
}

/// The steps by which the skill in an archive is unpacked into a directory, or why the archive cannot
/// be read.
pub fn plan_extraction(bytes: &[u8], prefix: &str, dest: &str) -> (r: Result<
    Vec<ExtractStep>,
    String,
>)
    ensures
        match zip_read(bytes@) {
            Ok(list) => r is Ok && step_models(r->Ok_0@) == extract_steps(
                list,
                prefix@,
                dest@,
                0,
                0,
            ),
            Err(e) => r is Err && r->Err_0@ == "无法读取压缩包："@ + e,
        },
{
    let mut archive = match open_zip(bytes) {
        Ok(a) => a,
        Err(e) => {
            return Err(concat2("无法读取压缩包：", e.as_str()));
        },
    };
    let ghost list = zip_entries(archive);
    let names = zip_names(&archive);
    let ghost all = texts(names@);
    assert(all.len() == names@.len());
    let ghost whole = extract_steps(list, prefix@, dest@, 0, 0);
    let mut out: Vec<ExtractStep> = Vec::new();
    let mut total: u64 = 0;
    let mut i: usize = 0;
    assert(step_models(out@) + whole =~= whole);
    while i < names.len()
        invariant
            i <= names.len(),
            names@.len() == list.len(),
            all == texts(names@),
            all == entry_names(list),
            zip_entries(archive) == list,
            zip_read(bytes@) == Ok::<Seq<Entry>, Seq<char>>(list),
            whole == extract_steps(list, prefix@, dest@, 0, 0),
            total <= ZIP_MAX_TOTAL_BYTES,
            whole == step_models(out@) + extract_steps(
                list,
                prefix@,
                dest@,
                i as int,
                total as int,
            ),
        decreases names.len() - i,
    {
        let ghost before = step_models(out@);
        assert(all[i as int] == names@[i as int]@);
        assert(all[i as int] == list[i as int].name);
        match entry_at(&mut archive, i) {
            Err(e) => {
                let step = ExtractStep::Abort { message: e, clean: false };
                let ghost m = step.model();
                out.push(step);
                assert(step_models(out@) =~= before + seq![m]);
                return Ok(out);
            },
            Ok(e) => {
                let step = step_for(names[i].as_str(), e, prefix, dest, total);
                let ghost m = step.model();
                let stop = matches!(step, ExtractStep::Abort { .. });
                if matches!(step, ExtractStep::Write(_)) {
                    total = total + e.size;
                }
                out.push(step);
                proof {
                    let rest = extract_steps(list, prefix@, dest@, i + 1, total as int);
                    assert(step_models(out@) =~= before + seq![m]);
                    assert(before + (seq![m] + rest) =~= (before + seq![m]) + rest);
                }
                if stop {
                    return Ok(out);
                }
            },
        }
        i += 1;
    }
    assert(step_models(out@) + Seq::<StepModel>::empty() =~= step_models(out@));
    Ok(out)
}

/// Whether a step writes nothing outside a directory.
pub open spec fn stays_inside(step: StepModel, dest: Seq<char>) -> bool {
    match step {
        StepModel::Write(p) => exists|rel: Seq<char>|
            #![trigger is_enclosed(rel)]
            is_enclosed(rel) && p == joined(dest, rel),
        StepModel::MakeDir(p) => exists|rel: Seq<char>|
            #![trigger is_enclosed(rel)]
            is_enclosed(rel) && p == joined(dest, rel),
        _ => true,
    }
}

/// Whatever an archive holds, everything that is unpacked of it lies below the directory of the skill.
pub proof fn law_extraction_stays_inside(
    list: Seq<Entry>,
    prefix: Seq<char>,
    dest: Seq<char>,
    i: int,
    total: int,
    k: int,
)
    requires
        0 <= i,
        0 <= k < extract_steps(list, prefix, dest, i, total).len(),
    ensures
        stays_inside(extract_steps(list, prefix, dest, i, total)[k], dest),
    decreases list.len() - i,
{
    let steps = extract_steps(list, prefix, dest, i, total);
    if let Ok(info) = list[i].info {
        let step = extract_step(list[i].name, info, prefix, dest, total);
        if k == 0 {
            assert(steps[0] == step);
            if step is Write || step is MakeDir {
                let rel = strip_prefix(list[i].name, prefix)->0;
                assert(is_enclosed(rel));
            }
        } else {
            let next = if step is Write {
                total + info.size
            } else {
                total
            };
            law_extraction_stays_inside(list, prefix, dest, i + 1, next, k - 1);
            assert(steps[k] == extract_steps(list, prefix, dest, i + 1, next)[k - 1]);
        }
    }
}

/// How many bytes steps from the `i`-th entry on write.
pub open spec fn written_bytes(list: Seq<Entry>, steps: Seq<StepModel>, i: int) -> int
    decreases steps.len(),
{
    if steps.len() == 0 {
        0
    } else {
        (if steps[0] is Write && 0 <= i < list.len() && list[i].info is Ok {
            list[i].info->Ok_0.size as int
        } else {
            0
        }) + written_bytes(list, steps.drop_first(), i + 1)
    }
}

/// However an import ends, it writes no more bytes than the limit.
pub proof fn law_extraction_is_limited(
    list: Seq<Entry>,
    prefix: Seq<char>,
    dest: Seq<char>,
    i: int,
    total: int,
)
    requires
        0 <= total <= ZIP_MAX_TOTAL_BYTES,
        0 <= i,
    ensures
        total + written_bytes(list, extract_steps(list, prefix, dest, i, total), i)
            <= ZIP_MAX_TOTAL_BYTES,
    decreases list.len() - i,
{
    let steps = extract_steps(list, prefix, dest, i, total);
    if i < list.len() {
        match list[i].info {
            Err(_) => {
                assert(steps.drop_first() =~= Seq::empty());
                assert(written_bytes(list, steps.drop_first(), i + 1) == 0);
            },
            Ok(info) => {
                let step = extract_step(list[i].name, info, prefix, dest, total);
                if step is Abort {
                    assert(steps.drop_first() =~= Seq::empty());
                    assert(written_bytes(list, steps.drop_first(), i + 1) == 0);
                } else {
                    let next = if step is Write {
                        total + info.size
                    } else {
                        total
                    };
                    law_extraction_is_limited(list, prefix, dest, i + 1, next);
                    assert(steps.drop_first() =~= extract_steps(list, prefix, dest, i + 1, next));
                }
            },
        }
    }
}

/// An archive with an entry that leads out of the directory is never unpacked whole: its import
/// ends at that entry or before.
pub proof fn law_illegal_paths_end_the_import(
    list: Seq<Entry>,
    prefix: Seq<char>,
    dest: Seq<char>,
    i: int,
    total: int,
    k: int,
)
    requires
        0 <= i <= k < list.len(),
        list[k].info is Ok,
        !is_enclosed(list[k].name),
    ensures
        extract_steps(list, prefix, dest, i, total).len() > 0,
        extract_steps(list, prefix, dest, i, total).last() is Abort,
        extract_steps(list, prefix, dest, i, total).len() <= k - i + 1,
    decreases list.len() - i,
{
    if let Ok(info) = list[i].info {
        let step = extract_step(list[i].name, info, prefix, dest, total);
        if !(step is Abort) {
            let next = if step is Write {
                total + info.size
            } else {
                total
            };
            law_illegal_paths_end_the_import(list, prefix, dest, i + 1, next, k);
            let rest = extract_steps(list, prefix, dest, i + 1, next);
            assert((seq![step] + rest).last() == rest.last());
        }
    }
}

} // verus!
