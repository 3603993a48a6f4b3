//! The forms in which one repository is addressed are read alike.
use vstd::prelude::*;
use vstd::string::*;

use crate::git_host::{host_and_path, platform_of, remote_of, RemoteModel};
use crate::text::{
    ends_with, is_space, lower, lower_char, matches_at, split, split_once, starts_with, strip_end,
};
use crate::text_laws::{
    law_split_joins, law_trim_takes_surrounding_space, lemma_found, lemma_split_whole,
};

verus! {

/// Whether a text can name an owner or a repository in an address.
pub open spec fn is_part(s: Seq<char>) -> bool {
    s.len() > 0 && forall|i: int| 0 <= i < s.len() ==> #[trigger] s[i] != '/'
}

/// Whether an address of this repository can be written in every form: the name does not end as the
/// longer forms do.
pub open spec fn is_addressable(host: Seq<char>, owner: Seq<char>, repo: Seq<char>) -> bool {
    &&& platform_of(host) is Some
    &&& is_part(owner)
    &&& is_part(repo)
    &&& !ends_with(repo, ".git"@)
    &&& !is_space(repo.last())
}

/// The repository on a host.
pub open spec fn repository(host: Seq<char>, owner: Seq<char>, repo: Seq<char>) -> RemoteModel {
    RemoteModel { platform: platform_of(host)->0, owner, repo }
}

/// The address of a repository for `git@host:owner/repo`.
pub open spec fn by_ssh(host: Seq<char>, owner: Seq<char>, repo: Seq<char>) -> Seq<char> {
    "git@"@ + host + ":"@ + owner + "/"@ + repo
}

/// The address of a repository behind `https://` or `http://`.
pub open spec fn by_web(
    scheme: Seq<char>,
    host: Seq<char>,
    owner: Seq<char>,
    repo: Seq<char>,
) -> Seq<char> {
    scheme + host + "/"@ + owner + "/"@ + repo
}

proof fn lemma_host(host: Seq<char>, i: int)
    requires
        platform_of(host) is Some,
        0 <= i < host.len(),
    ensures
        host[i] != '/' && host[i] != ':',
{
    reveal_strlit("github.com");
    reveal_strlit("gitee.com");
    let l = lower(host);
    assert(l[i] == lower_char(host[i]));
    assert(lower_char('/') == '/' && lower_char(':') == ':');
    let a = "github.com"@;
    let b = "gitee.com"@;
    assert(a[0] == 'g' && a[1] == 'i' && a[2] == 't' && a[3] == 'h' && a[4] == 'u' && a[5] == 'b'
        && a[6] == '.' && a[7] == 'c' && a[8] == 'o' && a[9] == 'm');
    assert(b[0] == 'g' && b[1] == 'i' && b[2] == 't' && b[3] == 'e' && b[4] == 'e' && b[5] == '.'
        && b[6] == 'c' && b[7] == 'o' && b[8] == 'm');
    assert(l == a || l == b);
    assert(l[i] != '/' && l[i] != ':');
}

/// A text that does not hold a sign stands before the first of them.
proof fn lemma_cut(a: Seq<char>, sign: Seq<char>, b: Seq<char>)
    requires
        sign.len() == 1,
        forall|i: int| 0 <= i < a.len() ==> #[trigger] a[i] != sign[0],
    ensures
        split_once(a + sign + b, sign) == Some((a, b)),
{
    let s = a + sign + b;
    let n = a.len() as int;
    assert(s.subrange(n, n + 1) =~= sign);
    assert forall|j: int| 0 <= j < n implies !#[trigger] matches_at(s, sign, j) by {
        if matches_at(s, sign, j) {
            assert(s.subrange(j, j + 1)[0] == a[j]);
        }
    }
    lemma_found(s, sign, 0, n);
    assert(s.take(n) =~= a);
    assert(s.skip(n + 1) =~= b);
}

proof fn lemma_path(owner: Seq<char>, repo: Seq<char>)
    requires
        is_part(owner),
        is_part(repo),
    ensures
        split(owner + "/"@ + repo, "/"@) == seq![owner, repo],
{
    reveal_strlit("/");
    assert("/"@ =~= seq!['/']);
    law_split_joins(owner, '/', repo);
    assert forall|j: int| 0 <= j implies !#[trigger] matches_at(owner, seq!['/'], j) by {
        if matches_at(owner, seq!['/'], j) {
            assert(owner.subrange(j, j + 1)[0] == owner[j]);
        }
    }
    assert forall|j: int| 0 <= j implies !#[trigger] matches_at(repo, seq!['/'], j) by {
        if matches_at(repo, seq!['/'], j) {
            assert(repo.subrange(j, j + 1)[0] == repo[j]);
        }
    }
    lemma_split_whole(owner, seq!['/']);
    lemma_split_whole(repo, seq!['/']);
    assert(seq![owner] + seq![repo] =~= seq![owner, repo]);
}

/// The end of an address is taken away where it stands, and nothing else is.
proof fn lemma_ending(front: Seq<char>, repo: Seq<char>)
    requires
        is_part(repo),
        !ends_with(repo, ".git"@),
    ensures
        strip_end(front + "/"@ + repo, ".git"@) == front + "/"@ + repo,
        strip_end(front + "/"@ + repo + ".git"@, ".git"@) == front + "/"@ + repo,
{
    reveal_strlit(".git");
    reveal_strlit("/");
    let s = front + "/"@ + repo;
    let n = s.len() as int;
    if ends_with(s, ".git"@) {
        let e = s.subrange(n - 4, n);
        assert(e == ".git"@);
        if repo.len() >= 4 {
            assert(repo.subrange(repo.len() - 4, repo.len() as int) =~= e);
        } else {
            let k = 3 - repo.len();
            assert(e[k] == s[n - 4 + k]);
            assert(s[front.len() as int] == '/');
        }
    }
    let t = s + ".git"@;
    assert(t.subrange(n, n + 4) =~= ".git"@);
    assert(t.take(n) =~= s);
    assert(ends_with(t, ".git"@) && t.len() - ".git"@.len() == n);
    assert(strip_end(t, ".git"@) == strip_end(s, ".git"@));
}

proof fn lemma_read(url: Seq<char>, s: Seq<char>, host: Seq<char>, owner: Seq<char>, repo: Seq<char>)
    requires
        is_addressable(host, owner, repo),
        crate::text::trim(url) == s || crate::text::trim(url) == s + ".git"@,
        strip_end(s, ".git"@) == s,
        strip_end(s + ".git"@, ".git"@) == s,
        host_and_path(s) == Some((host, owner + "/"@ + repo)),
    ensures
        remote_of(url) == Some(repository(host, owner, repo)),
{
    lemma_path(owner, repo);
}

proof fn lemma_ssh(host: Seq<char>, owner: Seq<char>, repo: Seq<char>)
    requires
        is_addressable(host, owner, repo),
    ensures
        host_and_path(by_ssh(host, owner, repo)) == Some((host, owner + "/"@ + repo)),
        strip_end(by_ssh(host, owner, repo), ".git"@) == by_ssh(host, owner, repo),
        strip_end(by_ssh(host, owner, repo) + ".git"@, ".git"@) == by_ssh(host, owner, repo),
{
    reveal_strlit("git@");
    reveal_strlit(":");
    let s = by_ssh(host, owner, repo);
    let rest = host + ":"@ + (owner + "/"@ + repo);
    assert(s =~= "git@"@ + rest);
    assert(s.take(4) =~= "git@"@);
    assert(s.subrange(0, 4) =~= "git@"@);
    assert(s.skip(4) =~= rest);
    assert forall|i: int| 0 <= i < host.len() implies #[trigger] host[i] != ':' by {
        lemma_host(host, i);
    }
    lemma_cut(host, ":"@, owner + "/"@ + repo);
    lemma_ending("git@"@ + host + ":"@ + owner, repo);
}

proof fn lemma_web(scheme: Seq<char>, host: Seq<char>, owner: Seq<char>, repo: Seq<char>)
    requires
        is_addressable(host, owner, repo),
        scheme == "https://"@ || scheme == "http://"@,
    ensures
        host_and_path(by_web(scheme, host, owner, repo)) == Some((host, owner + "/"@ + repo)),
        strip_end(by_web(scheme, host, owner, repo), ".git"@) == by_web(scheme, host, owner, repo),
        strip_end(by_web(scheme, host, owner, repo) + ".git"@, ".git"@) == by_web(
            scheme,
            host,
            owner,
            repo,
        ),
{
    reveal_strlit("git@");
    reveal_strlit("https://");
    reveal_strlit("http://");
    reveal_strlit("/");
    let s = by_web(scheme, host, owner, repo);
    let n = scheme.len() as int;
    let rest = host + "/"@ + (owner + "/"@ + repo);
    assert(s =~= scheme + rest);
    assert(s[0] == 'h' && s[4] == scheme[4]);
    assert(s.subrange(0, n) =~= scheme);
    assert(s.skip(n) =~= rest);
    assert(!starts_with(s, "git@"@)) by {
        if starts_with(s, "git@"@) {
            assert(s.subrange(0, 4)[0] == s[0]);
        }
    }
    if scheme == "http://"@ {
        assert(!starts_with(s, "https://"@)) by {
            if starts_with(s, "https://"@) {
                assert(s.subrange(0, 8)[4] == s[4]);
            }
        }
    }
    assert forall|i: int| 0 <= i < host.len() implies #[trigger] host[i] != '/' by {
        lemma_host(host, i);
    }
    lemma_cut(host, "/"@, owner + "/"@ + repo);
    lemma_ending(scheme + host + "/"@ + owner, repo);
}

/// The addresses of one repository are read alike: with `git@`, `https://` or `http://`, with and
/// without `.git`, and with white space around.
pub proof fn law_addresses_agree(
    host: Seq<char>,
    owner: Seq<char>,
    repo: Seq<char>,
    w: Seq<char>,
    v: Seq<char>,
)
    requires
        is_addressable(host, owner, repo),
        forall|j: int| 0 <= j < w.len() ==> is_space(#[trigger] w[j]),
        forall|j: int| 0 <= j < v.len() ==> is_space(#[trigger] v[j]),
    ensures
        ({
            let wanted = Some(repository(host, owner, repo));
            let ssh = by_ssh(host, owner, repo);
            let https = by_web("https://"@, host, owner, repo);
            let http = by_web("http://"@, host, owner, repo);
            &&& remote_of(w + ssh + v) == wanted
            &&& remote_of(w + (ssh + ".git"@) + v) == wanted
            &&& remote_of(w + https + v) == wanted
            &&& remote_of(w + (https + ".git"@) + v) == wanted
            &&& remote_of(w + http + v) == wanted
            &&& remote_of(w + (http + ".git"@) + v) == wanted
        }),
{
    reveal_strlit("git@");
    reveal_strlit("https://");
    reveal_strlit("http://");
    reveal_strlit(".git");
    let ssh = by_ssh(host, owner, repo);
    let https = by_web("https://"@, host, owner, repo);
    let http = by_web("http://"@, host, owner, repo);
    lemma_ssh(host, owner, repo);
    lemma_web("https://"@, host, owner, repo);
    lemma_web("http://"@, host, owner, repo);
    assert(ssh[0] == 'g' && https[0] == 'h' && http[0] == 'h');
    assert(ssh.last() == repo.last() && https.last() == repo.last() && http.last() == repo.last());
    law_trim_takes_surrounding_space(w, ssh, v);
    law_trim_takes_surrounding_space(w, ssh + ".git"@, v);
    law_trim_takes_surrounding_space(w, https, v);
    law_trim_takes_surrounding_space(w, https + ".git"@, v);
    law_trim_takes_surrounding_space(w, http, v);
    law_trim_takes_surrounding_space(w, http + ".git"@, v);
    lemma_read(w + ssh + v, ssh, host, owner, repo);
    lemma_read(w + (ssh + ".git"@) + v, ssh, host, owner, repo);
    lemma_read(w + https + v, https, host, owner, repo);
    lemma_read(w + (https + ".git"@) + v, https, host, owner, repo);
    lemma_read(w + http + v, http, host, owner, repo);
    lemma_read(w + (http + ".git"@) + v, http, host, owner, repo);
}

} // verus!
