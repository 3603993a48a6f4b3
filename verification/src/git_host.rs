//! Pull requests on GitHub and Gitee: which of them a remote belongs to, what is asked of it, and
//! what it answers.
use vstd::prelude::*;
use vstd::string::*;

use crate::json::{
    add_member, json_compact_text, json_members, json_object, json_text, json_value, number_at,
    number_of, parse_json, print_compact, text_at, text_of, Json, JsonModel, Member, MemberModel,
};
use crate::models::Setting;
use crate::settings_service::{get_setting, keys_differ, set_setting, setting_of};
use crate::text::{
    concat3, cut, first_chars, lower, opt_text, same, split, split_on, split_once, strip_end,
    strip_prefix, stripped_end, take_chars, texts, to_lower, trim, trimmed, without_prefix,
};

verus! {

/// The platforms on which pull requests are made.
#[derive(Clone, Copy, Debug, PartialEq, Eq, Structural)]
pub enum GitPlatform {
    GitHub,
    Gitee,
}

/// The name of a platform.
pub open spec fn platform_name(p: GitPlatform) -> Seq<char> {
    match p {
        GitPlatform::GitHub => "GitHub"@,
        GitPlatform::Gitee => "Gitee"@,
    }
}

impl GitPlatform {
    /// The name of the platform.
    pub fn label(&self) -> (r: &'static str)
        ensures
            r@ == platform_name(*self),
    {
        match self {
            GitPlatform::GitHub => "GitHub",
            GitPlatform::Gitee => "Gitee",
        }
    }

    /// The device setting that holds the access token for the platform.
    pub fn token_key(&self) -> (r: &'static str)
        ensures
            r@ == token_setting(*self),
    {
        match self {
            GitPlatform::GitHub => "github.pat",
            GitPlatform::Gitee => "gitee.pat",
        }
    }
}

/// A repository on a platform.
pub struct RemoteInfo {
    pub platform: GitPlatform,
    pub owner: String,
    pub repo: String,
}

/// What a `RemoteInfo` says.
pub struct RemoteModel {
    pub platform: GitPlatform,
    pub owner: Seq<char>,
    pub repo: Seq<char>,
}

impl View for RemoteInfo {
    type V = RemoteModel;

    open spec fn view(&self) -> RemoteModel {
        RemoteModel { platform: self.platform, owner: self.owner@, repo: self.repo@ }
    }
}

/// The host and the path of a remote: `git@host:path`, `https://host/path` or `http://host/path`.
pub open spec fn host_and_path(url: Seq<char>) -> Option<(Seq<char>, Seq<char>)> {
    match strip_prefix(url, "git@"@) {
        Some(rest) => split_once(rest, ":"@),
        None => match strip_prefix(url, "https://"@) {
            Some(rest) => split_once(rest, "/"@),
            None => match strip_prefix(url, "http://"@) {
                Some(rest) => split_once(rest, "/"@),
                None => None,
            },
        },
    }
}

/// The platform of a host, whatever the case of its letters.
pub open spec fn platform_of(host: Seq<char>) -> Option<GitPlatform> {
    if lower(host) == "github.com"@ {
        Some(GitPlatform::GitHub)
    } else if lower(host) == "gitee.com"@ {
        Some(GitPlatform::Gitee)
    } else {
        None
    }
}

/// The repository that a remote stands for.
pub open spec fn remote_of(url: Seq<char>) -> Option<RemoteModel> {
    match host_and_path(strip_end(trim(url), ".git"@)) {
        Some((host, path)) => match platform_of(host) {
            Some(platform) => {
                let parts = split(path, "/"@);
                if parts.len() < 2 || parts[0].len() == 0 || parts[1].len() == 0 {
                    None
                } else {
                    Some(RemoteModel { platform, owner: parts[0], repo: parts[1] })
                }
            },
            None => None,
        },
        None => None,
    }
}

fn split_host(url: &str) -> (r: Option<(String, String)>)
    ensures
        match r {
            Some(p) => host_and_path(url@) == Some((p.0@, p.1@)),
            None => host_and_path(url@) is None,
        },
{
    match without_prefix(url, "git@") {
        Some(rest) => cut(rest.as_str(), ":"),
        None => match without_prefix(url, "https://") {
            Some(rest) => cut(rest.as_str(), "/"),
            None => match without_prefix(url, "http://") {
                Some(rest) => cut(rest.as_str(), "/"),
                None => None,
            },
        },
    }
}

/// Reads the address of a remote, `https://host/owner/repo(.git)` or `git@host:owner/repo(.git)`.
pub fn parse_remote_url(url: &str) -> (r: Option<RemoteInfo>)
    ensures
        (match r {
            Some(i) => Some(i@),
            None => None,
        }) == remote_of(url@),
{
    proof {
        reveal_strlit(".git");
        reveal_strlit("/");
    }
    let url = stripped_end(trimmed(url).as_str(), ".git");
    let (host, path) = match split_host(url.as_str()) {
        Some(p) => p,
        None => return None,
    };
    let host = to_lower(host.as_str());
    let platform = if same(host.as_str(), "github.com") {
        GitPlatform::GitHub
    } else if same(host.as_str(), "gitee.com") {
        GitPlatform::Gitee
    } else {
        return None;
    };
    let parts = split_on(path.as_str(), "/");
    if parts.len() < 2 {
        return None;
    }
    assert(texts(parts@)[0] == parts@[0]@ && texts(parts@)[1] == parts@[1]@);
    if parts[0].as_str().is_empty() || parts[1].as_str().is_empty() {
        return None;
    }
    Some(RemoteInfo { platform, owner: parts[0].clone(), repo: parts[1].clone() })
}

/// The device setting that holds the access token for a platform.
pub open spec fn token_setting(p: GitPlatform) -> Seq<char> {
    match p {
        GitPlatform::GitHub => "github.pat"@,
        GitPlatform::Gitee => "gitee.pat"@,
    }
}

/// The token for a platform among the settings of a device, unless it is blank.
pub fn get_token(device: &Vec<Setting>, platform: GitPlatform) -> (r: Option<String>)
    ensures
        opt_text(r) == (match setting_of(device@, token_setting(platform)) {
            Some(t) => if trim(t).len() > 0 {
                Some(t)
            } else {
                None
            },
            None => None,
        }),
{
    match get_setting(device, platform.token_key()) {
        Some(t) => if trimmed(t.as_str()).as_str().is_empty() {
            None
        } else {
            Some(t)
        },
        None => None,
    }
}

/// Keeps the token for a platform, trimmed, among the settings of a device. The other settings stay.
pub fn set_token(device: &mut Vec<Setting>, platform: GitPlatform, token: &str, now: &str)
    requires
        keys_differ(old(device)@),
    ensures
        keys_differ(final(device)@),
        setting_of(final(device)@, token_setting(platform)) == Some(trim(token@)),
        forall|k: Seq<char>|
            k != token_setting(platform) ==> setting_of(final(device)@, k) == #[trigger] setting_of(
                old(device)@,
                k,
            ),
{
    set_setting(device, platform.token_key(), trimmed(token).as_str(), now);
}

/// The token for a platform, or what is to be said where none is set.
pub fn usable_token(platform: GitPlatform, stored: Option<String>) -> (r: Result<String, String>)
    ensures
        match r {
            Ok(t) => stored is Some && stored->0@ == t@ && trim(t@).len() > 0,
            Err(e) => (stored is None || trim(stored->0@).len() == 0) && e@ == "未配置 "@
                + platform_name(platform) + " 的访问令牌（PAT）"@,
        },
{
    match stored {
        Some(t) => {
            if !trimmed(t.as_str()).as_str().is_empty() {
                return Ok(t);
            }
        },
        None => {},
    }
    Err(concat3("未配置 ", platform.label(), " 的访问令牌（PAT）"))
}

/// What is sent to make a pull request: where to, with which bearer token, and what.
pub struct PullRequest {
    pub url: String,
    pub bearer: Option<String>,
    pub body: Json,
}

/// A member of an object that holds a text.
pub open spec fn text_member(key: Seq<char>, value: Seq<char>) -> MemberModel {
    MemberModel { key, value: JsonModel::Str(value) }
}

/// What a pull request asks for.
pub open spec fn request_members(
    title: Seq<char>,
    body: Seq<char>,
    head: Seq<char>,
    base: Seq<char>,
) -> Seq<MemberModel> {
    seq![
        text_member("title"@, title),
        text_member("body"@, body),
        text_member("head"@, head),
        text_member("base"@, base),
    ]
}

/// What is sent to make a pull request. GitHub takes the token in a header, Gitee in the body.
pub fn pull_request(
    remote: &RemoteInfo,
    token: &str,
    title: &str,
    body: &str,
    head: &str,
    base: &str,
) -> (r: PullRequest)
    ensures
        match remote.platform {
            GitPlatform::GitHub => r.url@ == "https://api.github.com/repos/"@ + remote.owner@ + "/"@
                + remote.repo@ + "/pulls"@ && opt_text(r.bearer) == Some(token@) && r.body@
                == JsonModel::Object(request_members(title@, body@, head@, base@)),
            GitPlatform::Gitee => r.url@ == "https://gitee.com/api/v5/repos/"@ + remote.owner@
                + "/"@ + remote.repo@ + "/pulls"@ && r.bearer is None && r.body@
                == JsonModel::Object(
                seq![text_member("access_token"@, token@)] + request_members(
                    title@,
                    body@,
                    head@,
                    base@,
                ),
            ),
        },
{
    let mut m: Vec<Member> = Vec::new();
    let (start, bearer) = match remote.platform {
        GitPlatform::GitHub => ("https://api.github.com/repos/", Some(token.to_owned())),
        GitPlatform::Gitee => {
            add_member(&mut m, "access_token", json_text(token));
            ("https://gitee.com/api/v5/repos/", None)
        },
    };
    add_member(&mut m, "title", json_text(title));
    add_member(&mut m, "body", json_text(body));
    add_member(&mut m, "head", json_text(head));
    add_member(&mut m, "base", json_text(base));
    proof {
        let asked = request_members(title@, body@, head@, base@);
        match remote.platform {
            GitPlatform::GitHub => {
                assert(json_members(m@) =~= asked);
            },
            GitPlatform::Gitee => {
                assert(json_members(m@) =~= seq![text_member("access_token"@, token@)] + asked);
            },
        }
    }
    let mut url = concat3(start, remote.owner.as_str(), "/");
    url.append(remote.repo.as_str());
    url.append("/pulls");
    PullRequest { url, bearer, body: json_object(m) }
}

/// A pull request that was made.
pub struct PrResult {
    pub html_url: String,
    pub number: i64,
}

/// What a platform says of a failure: its message, or its list of errors.
pub open spec fn failure_message(v: JsonModel) -> Option<Seq<char>> {
    match text_of(v.get("message"@)) {
        Some(m) => Some(m),
        None => match v.get("errors"@) {
            Some(e) => Some(json_compact_text(e)),
            None => None,
        },
    }
}

/// What a platform says of a failure: its message, or its list of errors.
pub fn failure_message_of(v: &Json) -> (r: Option<String>)
    ensures
        opt_text(r) == failure_message(v@),
{
    match text_at(v.get("message")) {
        Some(m) => Some(m),
        None => match v.get("errors") {
            Some(e) => Some(print_compact(e)),
            None => None,
        },
    }
}

/// The pull request that an answer names.
pub fn pull_request_of(v: &Json) -> (r: PrResult)
    ensures
        r.html_url@ == (match text_of(v@.get("html_url"@)) {
            Some(u) => u,
            None => Seq::empty(),
        }),
        r.number == (match number_of(v@.get("number"@)) {
            Some(n) => n,
            None => 0,
        }),
{
    PrResult {
        html_url: match text_at(v.get("html_url")) {
            Some(u) => u,
            None => String::new(),
        },
        number: match number_at(v.get("number")) {
            Some(n) => n,
            None => 0,
        },
    }
}

/// What is said of a failed request: the platform's own words, or the beginning of its answer.
pub open spec fn failure_text(platform: GitPlatform, status: Seq<char>, answer: Seq<char>) -> Seq<
    char,
> {
    let message = match json_value(answer) {
        Ok(v) => match failure_message(v) {
            Some(m) => m,
            None => first_chars(answer, 300),
        },
        Err(_) => first_chars(answer, 300),
    };
    platform_name(platform) + " API 错误（"@ + status + "）："@ + message
}

/// Reads the answer to a pull request.
pub fn create_pull_request(platform: GitPlatform, success: bool, status: &str, answer: &str) -> (r:
    Result<PrResult, String>)
    ensures
        !success ==> r is Err && r->Err_0@ == failure_text(platform, status@, answer@),
        success ==> match json_value(answer@) {
            Ok(v) => r is Ok && r->Ok_0.html_url@ == (match text_of(v.get("html_url"@)) {
                Some(u) => u,
                None => Seq::empty(),
            }) && r->Ok_0.number == (match number_of(v.get("number"@)) {
                Some(n) => n,
                None => 0,
            }),
            Err(e) => r is Err && r->Err_0@ == "解析响应失败："@ + e,
        },
{
    let parsed = parse_json(answer);
    if !success {
        let message = match &parsed {
            Ok(v) => match failure_message_of(v) {
                Some(m) => m,
                None => take_chars(answer, 300),
            },
            Err(_) => take_chars(answer, 300),
        };
        let mut text = concat3(platform.label(), " API 错误（", status);
        text.append("）：");
        text.append(message.as_str());
        return Err(text);
    }
    match parsed {
        Ok(v) => Ok(pull_request_of(&v)),
        Err(e) => Err(crate::text::concat2("解析响应失败：", e.as_str())),
    }
}

} // verus!
