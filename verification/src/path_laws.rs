//! How paths are put together and taken apart.
use vstd::prelude::*;
use vstd::string::*;

use crate::file_service::{extension, file_part, plain_end};
use crate::file_store::{blob_present, joined};
use crate::git_host::{platform_of, GitPlatform};
use crate::paths::{has_drive, is_absolute, is_windows, slashed, with_slashes};
use crate::text::{
    is_upper, lower, lower_char, run_back, run_of, segment_start, starts_with, strip_both,
};
use crate::vault_dirs::depth;
use crate::word_laws::law_behind_the_last_and_before_the_first;

verus! {

// ---------------------------------------------------------------------------------------------
// Characters
// ---------------------------------------------------------------------------------------------
/// In lower case a text is as long as before, the letters `A` to `Z` are `a` to `z`, and no other
/// character is changed.
pub proof fn law_lower_case(s: Seq<char>, i: int)
    requires
        0 <= i < s.len(),
    ensures
        lower(s).len() == s.len(),
        'A' <= s[i] <= 'Z' ==> lower(s)[i] as int == s[i] as int + 32,
        !('A' <= s[i] <= 'Z') ==> lower(s)[i] == s[i],
        lower(lower(s)) == lower(s),
{
    assert forall|k: int| 0 <= k < s.len() implies lower(lower(s))[k] == lower(s)[k] by {
        assert(lower(s)[k] == lower_char(s[k]));
        assert(!is_upper(lower_char(s[k])));
    }
    assert(lower(lower(s)) =~= lower(s));
}

proof fn lemma_run(s: Seq<char>, c: char, i: int, k: int)
    requires
        0 <= i <= k <= s.len(),
        forall|j: int| i <= j < k ==> #[trigger] s[j] == c,
        k < s.len() ==> s[k] != c,
    ensures
        run_of(s, c, i) == k,
    decreases k - i,
{
    if i < k {
        assert(s[i] == c);
        lemma_run(s, c, i + 1, k);
    }
}

proof fn lemma_run_back(s: Seq<char>, c: char, lo: int, i: int, k: int)
    requires
        0 <= lo <= k <= i <= s.len(),
        forall|j: int| k <= j < i ==> #[trigger] s[j] == c,
        k > lo ==> s[k - 1] != c,
    ensures
        run_back(s, c, lo, i) == k,
    decreases i - k,
{
    if k < i {
        assert(s[i - 1] == c);
        lemma_run_back(s, c, lo, i - 1, k);
    }
}

/// A sign goes from both ends of a text, as often as it stands there, and from nowhere else.
pub proof fn law_sign_goes_from_both_ends(before: nat, s: Seq<char>, behind: nat, c: char)
    requires
        s.len() > 0,
        s[0] != c && s.last() != c,
    ensures
        strip_both(Seq::new(before, |i: int| c) + s + Seq::new(behind, |i: int| c), c) == s,
{
    let a = Seq::new(before, |i: int| c);
    let b = Seq::new(behind, |i: int| c);
    let all = a + s + b;
    let n = before as int;
    let m = n + s.len();
    assert forall|j: int| 0 <= j < n implies #[trigger] all[j] == c by {
        assert(all[j] == a[j]);
    }
    assert(all[n] == s[0]);
    lemma_run(all, c, 0, n);
    assert forall|j: int| m <= j < all.len() implies #[trigger] all[j] == c by {
        assert(all[j] == b[j - m]);
    }
    assert(all[m - 1] == s.last());
    lemma_run_back(all, c, n, all.len() as int, m);
    assert(all.subrange(n, m) =~= s);
}

// ---------------------------------------------------------------------------------------------
// Paths
// ---------------------------------------------------------------------------------------------
/// A path below a directory is that of the directory, a separator and the name; an absolute one stands
/// for itself; and a separator that is there is not doubled.
pub proof fn law_paths_are_joined(dir: Seq<char>, name: Seq<char>)
    requires
        dir.len() > 0,
    ensures
        is_absolute(name) ==> joined(dir, name) == name,
        !is_absolute(name) && !is_windows(dir) && dir.last() != '/' ==> joined(dir, name) == dir + "/"@
            + name,
        !is_absolute(name) && dir.last() == '/' ==> joined(dir, name) == dir + name,
        !is_absolute(name) && is_windows(dir) && dir.last() != '/' && dir.last() != '\\' ==> joined(
            dir,
            name,
        ) == dir + "\\"@ + name,
{
    reveal_strlit("/");
    reveal_strlit("\\");
    let n = dir.len() as int;
    assert(dir.subrange(n - 1, n)[0] == dir.last());
    if dir.last() == '/' {
        assert(dir.subrange(n - 1, n) =~= "/"@);
    } else {
        assert(dir.subrange(n - 1, n) != "/"@) by {
            assert("/"@[0] == '/');
        }
    }
    if dir.last() != '\\' {
        assert(dir.subrange(n - 1, n) != "\\"@) by {
            assert("\\"@[0] == '\\');
        }
    }
}

/// A path that begins with a slash says where it begins, and so does one with a drive and a slash, and one
/// that begins with a name does not.
pub proof fn law_absolute_paths(rest: Seq<char>, name: Seq<char>)
    ensures
        is_absolute(seq!['/'] + rest),
        is_absolute(seq!['C', ':', '\\'] + rest),
        name.len() > 0 && name[0] != '/' && name[0] != '\\' && !has_drive(name) ==> !is_absolute(name),
{
    reveal_strlit("/");
    reveal_strlit("\\\\");
    assert((seq!['/'] + rest).subrange(0, 1) =~= "/"@);
    let p = seq!['C', ':', '\\'] + rest;
    assert(p[0] == 'C' && p[1] == ':' && p[2] == '\\');
    if name.len() > 0 && name[0] != '/' && name[0] != '\\' {
        if starts_with(name, "/"@) {
            assert(name.subrange(0, 1)[0] == "/"@[0]);
        }
        if starts_with(name, "\\\\"@) {
            assert(name.subrange(0, 2)[0] == "\\\\"@[0]);
        }
    }
}

/// With slashes a path has as many characters as before, a slash for each backslash, and no other change.
pub proof fn law_backslashes_become_slashes(path: Seq<char>, i: int)
    requires
        0 <= i < path.len(),
    ensures
        with_slashes(path).len() == path.len(),
        path[i] == '\\' ==> with_slashes(path)[i] == '/',
        path[i] != '\\' ==> with_slashes(path)[i] == path[i],
{
}

/// The last part of a path is what stands behind its last slash, and the extension what stands behind the
/// last dot of that.
pub proof fn law_last_part_of_a_path(dir: Seq<char>, stem: Seq<char>, ext: Seq<char>)
    requires
        !is_windows(dir + seq!['/'] + (stem + seq!['.'] + ext)),
        stem.len() > 0 && ext.len() > 0,
        !stem.contains('/') && !ext.contains('/') && !ext.contains('.'),
    ensures
        file_part(dir + seq!['/'] + (stem + seq!['.'] + ext)) == stem + seq!['.'] + ext,
        extension(dir + seq!['/'] + (stem + seq!['.'] + ext)) == Some(ext),
{
    reveal_strlit("..");
    let base = stem + seq!['.'] + ext;
    let path = dir + seq!['/'] + base;
    assert(!base.contains('/')) by {
        assert forall|i: int| 0 <= i < base.len() implies base[i] != '/' by {
            if i < stem.len() {
                assert(base[i] == stem[i]);
            } else if i > stem.len() {
                assert(base[i] == ext[i - stem.len() - 1]);
            }
        }
    }
    assert(slashed(path) == path);
    assert(path.last() == ext.last());
    assert(ext.contains(ext.last())) by {
        assert(ext[ext.len() - 1] == ext.last());
    }
    assert(path.last() != '/' && path.last() != '.');
    assert(plain_end(path) == path);
    law_behind_the_last_and_before_the_first(dir, '/', base);
    let k = stem.len() + 1;
    assert forall|j: int| k <= j < base.len() implies #[trigger] base[j] != '.' by {
        assert(base[j] == ext[j - k]);
    }
    assert(base[k - 1] == '.');
    lemma_segment(base, '.', base.len() as int, k as int);
    assert(base.skip(k as int) =~= ext);
    assert(base.len() >= 3);
}

proof fn lemma_segment(s: Seq<char>, c: char, i: int, k: int)
    requires
        0 <= k <= i <= s.len(),
        forall|j: int| k <= j < i ==> #[trigger] s[j] != c,
        k > 0 ==> s[k - 1] == c,
    ensures
        segment_start(s, c, i) == k,
    decreases i - k,
{
    if k < i {
        assert(s[i - 1] != c);
        lemma_segment(s, c, i - 1, k);
    }
}

/// The depth of a path counts the slashes of all its parts.
pub proof fn law_every_slash_counts(a: Seq<char>, b: Seq<char>, c: char)
    ensures
        depth(a + b) == depth(a) + depth(b),
        depth(seq![c]) == if c == '/' {
            1nat
        } else {
            0
        },
    decreases b.len(),
{
    let none = Seq::<char>::empty();
    assert(depth(none) == 0);
    assert(seq![c].drop_last() =~= none);
    assert(seq![c].last() == c);
    if b.len() == 0 {
        assert(a + b =~= a);
    } else {
        law_every_slash_counts(a, b.drop_last(), c);
        assert((a + b).drop_last() =~= a + b.drop_last());
        assert((a + b).last() == b.last());
    }
}

/// A stored content is there just where a file has its hash for a name, whatever the extension.
pub proof fn law_stored_content_is_there(names: Seq<Seq<char>>, hash: Seq<char>, ext: Seq<char>, k: int)
    ensures
        0 <= k < names.len() && names[k] == hash + "."@ + ext ==> blob_present(names, hash),
        names.len() == 0 ==> !blob_present(names, hash),
{
    if 0 <= k < names.len() && names[k] == hash + "."@ + ext {
        let head = hash + "."@;
        assert(names[k].subrange(0, head.len() as int) =~= head);
        assert(starts_with(names[k], head));
    }
}

/// The two platforms are known by their hosts, whatever the case of the letters, and no other is.
pub proof fn law_platforms_are_known(host: Seq<char>)
    ensures
        lower(host) == "github.com"@ ==> platform_of(host) == Some(GitPlatform::GitHub),
        lower(host) == "gitee.com"@ ==> platform_of(host) == Some(GitPlatform::Gitee),
        lower(host) != "github.com"@ && lower(host) != "gitee.com"@ ==> platform_of(host) is None,
{
    reveal_strlit("github.com");
    reveal_strlit("gitee.com");
    assert("github.com"@.len() == 10 && "gitee.com"@.len() == 9);
}

} // verus!
