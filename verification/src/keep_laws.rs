//! What needs no change is not changed: texts without signs of Markdown, names that files may have, values
//! that BibTeX may hold.
use vstd::prelude::*;
use vstd::string::*;

use crate::citation_export::bib_value;
use crate::note_service::plain_text;
use crate::paper_service::file_title;
use crate::text::{ends_with, is_space, join, matches_at, replace, without, words};
use crate::text_laws::{lemma_join_first, lemma_trim_same};
use crate::vault_service::{file_name, is_reserved, unreserved};
use crate::word_laws::{
    law_behind_the_last_and_before_the_first, law_endings_go, law_every_word_is_found,
    law_nothing_else_is_replaced,
};
use crate::zotero_import::{attachment_name, without_storage};

verus! {

// ---------------------------------------------------------------------------------------------
// Values
// ---------------------------------------------------------------------------------------------
/// Whether a text is a word without braces.
pub open spec fn is_plain_word(w: Seq<char>) -> bool {
    w.len() > 0 && forall|i: int|
        0 <= i < w.len() ==> !is_space(#[trigger] w[i]) && w[i] != '{' && w[i] != '}'
}

proof fn lemma_words_of_join(list: Seq<Seq<char>>)
    requires
        list.len() > 0,
        forall|k: int| 0 <= k < list.len() ==> is_plain_word(#[trigger] list[k]),
    ensures
        words(join(list, " "@)) == list,
        forall|i: int|
            0 <= i < join(list, " "@).len() ==> #[trigger] join(list, " "@)[i] != '{' && join(
                list,
                " "@,
            )[i] != '}',
    decreases list.len(),
{
    reveal_strlit(" ");
    assert(" "@ =~= seq![' ']);
    let w = list[0];
    assert(is_plain_word(list[0]));
    if list.len() == 1 {
        law_every_word_is_found(w, ' ', Seq::empty());
        assert(seq![w] =~= list);
    } else {
        let rest = list.skip(1);
        assert forall|k: int| 0 <= k < rest.len() implies is_plain_word(#[trigger] rest[k]) by {
            assert(rest[k] == list[k + 1]);
        }
        lemma_words_of_join(rest);
        lemma_join_first(list, " "@);
        let tail = join(rest, " "@);
        law_every_word_is_found(w, ' ', tail);
        assert(seq![w] + rest =~= list);
        let s = join(list, " "@);
        assert(s == w + seq![' '] + tail);
        assert forall|i: int| 0 <= i < s.len() implies #[trigger] s[i] != '{' && s[i] != '}' by {
            if i < w.len() {
                assert(s[i] == w[i]);
            } else if i > w.len() {
                assert(s[i] == tail[i - w.len() - 1]);
            }
        }
    }
}

proof fn lemma_nothing_goes(s: Seq<char>, bad: Seq<char>)
    requires
        forall|i: int| 0 <= i < s.len() ==> !bad.contains(#[trigger] s[i]),
    ensures
        without(s, bad) == s,
    decreases s.len(),
{
    if s.len() > 0 {
        let shorter = s.drop_last();
        assert forall|i: int| 0 <= i < shorter.len() implies !bad.contains(#[trigger] shorter[i]) by {
            assert(shorter[i] == s[i]);
        }
        lemma_nothing_goes(shorter, bad);
        assert(!bad.contains(s[s.len() - 1]));
        assert(shorter.push(s.last()) =~= s);
    } else {
        assert(s =~= Seq::empty());
    }
}

/// A text of words without braces, with single blanks between, is written into an entry as it is: every
/// word of it, in its order.
pub proof fn law_every_word_is_written(list: Seq<Seq<char>>)
    requires
        list.len() > 0,
        forall|k: int| 0 <= k < list.len() ==> is_plain_word(#[trigger] list[k]),
    ensures
        bib_value(join(list, " "@)) == join(list, " "@),
{
    reveal_strlit("{}");
    let s = join(list, " "@);
    lemma_words_of_join(list);
    assert forall|i: int| 0 <= i < s.len() implies !"{}"@.contains(#[trigger] s[i]) by {
        if "{}"@.contains(s[i]) {
            let k = choose|k: int| 0 <= k < "{}"@.len() && "{}"@[k] == s[i];
            assert(k == 0 || k == 1);
        }
    }
    lemma_nothing_goes(s, "{}"@);
}

// ---------------------------------------------------------------------------------------------
// Plain texts
// ---------------------------------------------------------------------------------------------
/// Whether a text holds none of the signs that Markdown gives a meaning to.
pub open spec fn has_no_signs(s: Seq<char>) -> bool {
    forall|i: int|
        0 <= i < s.len() ==> #[trigger] s[i] != '*' && s[i] != '_' && s[i] != '`' && s[i] != '#' && s[i]
            != '>' && s[i] != '[' && s[i] != ']' && s[i] != '(' && s[i] != ')'
}

proof fn lemma_no_sign(s: Seq<char>, pat: Seq<char>, c: char)
    requires
        pat.len() > 0,
        pat[0] == c,
        forall|i: int| 0 <= i < s.len() ==> #[trigger] s[i] != c,
    ensures
        replace(s, pat, Seq::empty()) == s,
{
    assert forall|j: int| 0 <= j implies !#[trigger] matches_at(s, pat, j) by {
        if matches_at(s, pat, j) {
            assert(s.subrange(j, j + pat.len())[0] == pat[0]);
            assert(s[j] != c);
        }
    }
    law_nothing_else_is_replaced(s, pat, Seq::empty());
}

/// A text without signs of Markdown is its own plain text.
pub proof fn law_plain_text_stays(s: Seq<char>)
    requires
        has_no_signs(s),
    ensures
        plain_text(s) == s,
{
    reveal_strlit("**");
    reveal_strlit("__");
    reveal_strlit("*");
    reveal_strlit("_");
    reveal_strlit("`");
    reveal_strlit("#");
    reveal_strlit("> ");
    reveal_strlit("[");
    reveal_strlit("]");
    reveal_strlit("(");
    reveal_strlit(")");
    lemma_no_sign(s, "**"@, '*');
    lemma_no_sign(s, "__"@, '_');
    lemma_no_sign(s, "*"@, '*');
    lemma_no_sign(s, "_"@, '_');
    lemma_no_sign(s, "`"@, '`');
    lemma_no_sign(s, "#"@, '#');
    lemma_no_sign(s, "> "@, '>');
    lemma_no_sign(s, "["@, '[');
    lemma_no_sign(s, "]"@, ']');
    lemma_no_sign(s, "("@, '(');
    lemma_no_sign(s, ")"@, ')');
}

// ---------------------------------------------------------------------------------------------
// Names
// ---------------------------------------------------------------------------------------------
/// A title that a file may have for its name is the name of the file.
pub proof fn law_good_title_is_the_name(title: Seq<char>)
    requires
        title.len() > 0,
        forall|i: int| 0 <= i < title.len() ==> !is_reserved(#[trigger] title[i]),
        !is_space(title[0]) && !is_space(title.last()),
        title.last() != '.',
    ensures
        file_name(title) == title,
{
    reveal_strlit(".");
    assert(unreserved(title) =~= title) by {
        assert forall|i: int| 0 <= i < title.len() implies unreserved(title)[i] == title[i] by {
            assert(!is_reserved(title[i]));
        }
    }
    lemma_trim_same(title);
    if ends_with(title, "."@) {
        assert(title.subrange(title.len() - 1, title.len() as int)[0] == "."@[0]);
    }
}

/// A file that says nothing of itself has its name without the ending for a title.
pub proof fn law_file_name_is_the_title(name: Seq<char>)
    requires
        !ends_with(name, ".pdf"@),
    ensures
        file_title(name + ".pdf"@, None) == name,
        file_title(name, None) == name,
{
    reveal_strlit(".pdf");
    law_endings_go(name, ".pdf"@);
}

/// The name of an attachment is the last part of its path.
pub proof fn law_attachment_is_named_by_its_last_part(dir: Seq<char>, name: Seq<char>)
    requires
        !name.contains('/') && !name.contains('\\'),
        !crate::text::starts_with(name, "storage:"@),
    ensures
        attachment_name(dir + seq!['/'] + name) == name,
        attachment_name("storage:"@ + name) == name,
{
    reveal_strlit("storage:");
    law_behind_the_last_and_before_the_first(dir, '/', name);
    law_behind_the_last_and_before_the_first(dir, '\\', name);
    let s = "storage:"@ + name;
    assert(!s.contains('/') && !s.contains('\\')) by {
        assert forall|i: int| 0 <= i < s.len() implies s[i] != '/' && s[i] != '\\' by {
            if i < 8 {
                assert(s[i] == "storage:"@[i]);
            } else {
                assert(s[i] == name[i - 8]);
            }
        }
    }
    law_behind_the_last_and_before_the_first(dir, '/', s);
    law_behind_the_last_and_before_the_first(dir, '\\', s);
    assert(s.subrange(0, 8) =~= "storage:"@);
    assert(s.skip(8) =~= name);
    assert(without_storage(name) == name);
}

} // verus!
