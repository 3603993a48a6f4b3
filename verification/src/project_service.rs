//! Projects: directories that a user works in.
use vstd::prelude::*;
use vstd::string::*;

use crate::file_service::{file_part, file_part_of};
use crate::models::{Project, ProjectInput};
use crate::order::{
    in_order, law_sorted, lemma_text_before, order_places, place_list, places, sorted, text_before,
};
use crate::table::{find_row, first_place, remove_rows, rows_without};
use crate::text::{concat2, copy_opt, opt_text, same, trim, trimmed};

verus! {

/// The last part of a path, or the whole path where there is none.
pub open spec fn directory_name(path: Seq<char>) -> Seq<char> {
    let n = file_part(path);
    if n.len() == 0 || n == ".."@ || n == "."@ {
        path
    } else {
        n
    }
}

/// The last part of a path, or the whole path where there is none.
pub fn folder_name(path: &str) -> (r: String)
    ensures
        r@ == directory_name(path@),
{
    let n = file_part_of(path);
    if n.as_str().is_empty() || same(n.as_str(), "..") || same(n.as_str(), ".") {
        path.to_owned()
    } else {
        n
    }
}

/// Whether a name that a user gave counts.
pub open spec fn is_named(name: Option<String>) -> bool {
    name is Some && trim(name->0@).len() > 0
}

fn named(name: &Option<String>) -> (r: bool)
    ensures
        r == is_named(*name),
{
    match name {
        Some(n) => !trimmed(n.as_str()).as_str().is_empty(),
        None => false,
    }
}

/// Where a project lies: the path that was given, trimmed.
pub fn project_path(input: &ProjectInput) -> (r: Result<String, String>)
    ensures
        match r {
            Ok(p) => input.path is Some && p@ == trim(input.path->0@) && p@.len() > 0,
            Err(e) => (input.path is None || trim(input.path->0@).len() == 0) && e@
                == "project path required"@,
        },
{
    let path = match &input.path {
        Some(p) => trimmed(p.as_str()),
        None => String::new(),
    };
    if path.as_str().is_empty() {
        return Err("project path required".to_owned());
    }
    Ok(path)
}

/// Whether the directory of a new project becomes a repository.
pub fn wants_repository(input: &ProjectInput) -> (r: bool)
    ensures
        r == (input.git_init == Some(true)),
{
    match input.git_init {
        Some(b) => b,
        None => false,
    }
}

/// What a repository leaves out from the start.
pub const GITIGNORE_TEMPLATE: &'static str = "# Build outputs\ntarget/\nnode_modules/\ndist/\n\n# Logs & OS noise\n*.log\n.DS_Store\nThumbs.db\n\n# Local env\n.env\n.env.local\n";

/// What comes of making a repository: whether the file that says what is left out is written too.
pub fn git_bootstrap(available: bool, init_ok: bool, status: &str, has_ignore: bool) -> (r: Result<
    bool,
    String,
>)
    ensures
        match r {
            Ok(write) => available && init_ok && write == !has_ignore,
            Err(e) => if !available {
                e@ == "未检测到 git，请先安装 git 后再初始化仓库"@
            } else {
                !init_ok && e@ == "git init 退出码非零："@ + status@
            },
        },
{
    if !available {
        return Err("未检测到 git，请先安装 git 后再初始化仓库".to_owned());
    }
    if !init_ok {
        return Err(concat2("git init 退出码非零：", status));
    }
    Ok(!has_ignore)
}

/// A new project at a path: under the name that was given, else under that of its directory.
pub fn create(input: &ProjectInput, path: &str, id: &str, now: &str) -> (r: Project)
    ensures
        r.id@ == id@,
        r.path@ == path@,
        r.name@ == (if is_named(input.name) {
            input.name->0@
        } else {
            directory_name(path@)
        }),
        !r.archived,
        r.created_at@ == now@ && r.updated_at@ == now@,
{
    let name = if named(&input.name) {
        match &input.name {
            Some(n) => n.clone(),
            None => String::new(),
        }
    } else {
        folder_name(path)
    };
    Project {
        id: id.to_owned(),
        name,
        path: path.to_owned(),
        archived: false,
        created_at: now.to_owned(),
        updated_at: now.to_owned(),
    }
}

/// A project once it was changed: it gets the name that was given, if that counts.
pub fn update(p: &Project, input: &ProjectInput, now: &str) -> (r: Project)
    ensures
        r.id@ == p.id@,
        r.path@ == p.path@,
        r.name@ == (if is_named(input.name) {
            input.name->0@
        } else {
            p.name@
        }),
        r.archived == p.archived,
        r.created_at@ == p.created_at@,
        r.updated_at@ == now@,
{
    let name = if named(&input.name) {
        match &input.name {
            Some(n) => n.clone(),
            None => String::new(),
        }
    } else {
        p.name.clone()
    };
    Project {
        id: p.id.clone(),
        name,
        path: p.path.clone(),
        archived: p.archived,
        created_at: p.created_at.clone(),
        updated_at: now.to_owned(),
    }
}

/// A project once it was put away, or brought back.
pub fn set_archived(p: &mut Project, archived: bool, now: &str)
    ensures
        final(p).archived == archived,
        final(p).updated_at@ == now@,
        final(p).id == old(p).id && final(p).name == old(p).name && final(p).path == old(p).path
            && final(p).created_at == old(p).created_at,
{
    p.archived = archived;
    p.updated_at = now.to_owned();
}

/// Whether a project stands before another: those that are put away come last, and otherwise the
/// older comes first.
pub open spec fn stands_before(a: Project, b: Project) -> bool {
    (!a.archived && b.archived) || (a.archived == b.archived && text_before(
        a.created_at@,
        b.created_at@,
    ))
}

/// Places go as what stands at them is listed.
pub open spec fn by_listing(list: Seq<Project>) -> spec_fn(int, int) -> bool {
    |a: int, b: int| stands_before(list[a], list[b])
}

/// The places of projects as they are listed.
pub fn list(projects: &Vec<Project>) -> (r: Vec<usize>)
    ensures
        place_list(r@) == sorted(places(projects@.len()), by_listing(projects@)),
        r.len() == projects.len(),
        forall|i: int| 0 <= i < r.len() ==> #[trigger] r@[i] < projects.len(),
{
    let goes = |a: usize, b: usize| -> (c: bool)
        requires
            a < projects.len() && b < projects.len(),
        ensures
            c == stands_before(projects@[a as int], projects@[b as int]),
        {
            let x = &projects[a];
            let y = &projects[b];
            (!x.archived && y.archived) || (x.archived == y.archived && crate::order::goes_before(
                x.created_at.as_str(),
                y.created_at.as_str(),
            ))
        };
    order_places(projects.len(), goes, Ghost(by_listing(projects@)))
}

/// Projects are listed in order, and each once.
pub proof fn law_projects_in_order(list: Seq<Project>)
    ensures
        in_order(sorted(places(list.len()), by_listing(list)), by_listing(list)),
        sorted(places(list.len()), by_listing(list)).to_multiset() == places(
            list.len(),
        ).to_multiset(),
{
    let before = by_listing(list);
    assert forall|a: int, b: int| #[trigger] before(a, b) implies !before(b, a) by {
        lemma_text_before(list[a].created_at@, list[b].created_at@, list[b].created_at@);
    }
    assert forall|a: int, b: int, c: int| #[trigger] before(a, c) implies #[trigger] before(a, b)
        || #[trigger] before(b, c) by {
        lemma_text_before(list[a].created_at@, list[b].created_at@, list[c].created_at@);
    }
    law_sorted(places(list.len()), before);
}

/// Whether a project has an id.
pub open spec fn with_id(id: Seq<char>) -> spec_fn(Project) -> bool {
    |p: Project| p.id@ == id
}

/// The place of a project.
pub fn get_by_id(projects: &Vec<Project>, id: &str) -> (r: Option<usize>)
    ensures
        match r {
            Some(k) => k < projects.len() && first_place(projects@, with_id(id@), 0) == Some(
                k as int,
            ) && projects@[k as int].id@ == id@,
            None => first_place(projects@, with_id(id@), 0) is None,
        },
{
    let is = |p: &Project| -> (c: bool)
        ensures
            c == (p.id@ == id@),
        { same(p.id.as_str(), id) };
    find_row(projects, is, Ghost(with_id(id@)))
}

/// Where a project is.
pub fn get_path(projects: &Vec<Project>, id: &str) -> (r: Option<String>)
    ensures
        opt_text(r) == (match first_place(projects@, with_id(id@), 0) {
            Some(k) => Some(projects@[k].path@),
            None => None,
        }),
{
    match get_by_id(projects, id) {
        Some(k) => Some(projects[k].path.clone()),
        None => None,
    }
}

/// What is left of the link of a conversation to a project that is deleted: the conversation stays.
pub open spec fn link_after(project: Option<Seq<char>>, deleted: Seq<char>) -> Option<Seq<char>> {
    if project == Some(deleted) {
        None
    } else {
        project
    }
}

/// What is left of the link of a conversation to a project that is deleted.
pub fn project_after_delete(project_id: Option<String>, deleted: &str) -> (r: Option<String>)
    ensures
        opt_text(r) == link_after(opt_text(project_id), deleted@),
{
    match project_id {
        Some(p) => if same(p.as_str(), deleted) {
            None
        } else {
            Some(p)
        },
        None => None,
    }
}

/// Deletes a project. `sessions` holds the project of each conversation: none of them is deleted, and
/// those of the project lose it.
pub fn delete(projects: &mut Vec<Project>, sessions: &Vec<Option<String>>, id: &str) -> (r: Vec<
    Option<String>,
>)
    ensures
        final(projects)@ == rows_without(old(projects)@, with_id(id@)),
        r.len() == sessions.len(),
        forall|i: int|
            0 <= i < r.len() ==> opt_text(#[trigger] r@[i]) == link_after(
                opt_text(sessions@[i]),
                id@,
            ),
{
    let goes = |p: &Project| -> (c: bool)
        ensures
            c == (p.id@ == id@),
        { same(p.id.as_str(), id) };
    remove_rows(projects, goes, Ghost(with_id(id@)));
    let mut out: Vec<Option<String>> = Vec::new();
    let mut i: usize = 0;
    while i < sessions.len()
        invariant
            i <= sessions.len(),
            out.len() == i,
            forall|k: int|
                0 <= k < i ==> opt_text(#[trigger] out@[k]) == link_after(
                    opt_text(sessions@[k]),
                    id@,
                ),
        decreases sessions.len() - i,
    {
        out.push(project_after_delete(copy_opt(&sessions[i]), id));
        i += 1;
    }
    out
}

} // verus!
