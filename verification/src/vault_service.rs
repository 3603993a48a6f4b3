//! Note vaults: their names, and their exchange with folders of Markdown files.
use vstd::prelude::*;
use vstd::string::*;

use crate::models::{Note, Setting, Vault};
use crate::order::{goes_before, order_places, place_list, places, sorted, text_before};
use crate::settings_service::{get_setting, keys_differ, set_setting, setting_of};
use crate::table::{find_row, first_place};
use crate::text::{
    chars_of, concat2, concat3, cut, decimal, holds, lemma_texts_push, lines, lines_of, list_has,
    lower, opt_text, strip_both, stripped_both, same, split, split_on, split_once, starts_with,
    strip_end, strip_prefix, stripped_end, texts, to_lower, trim, trimmed, wide_decimal_of,
    without_prefix,
};

verus! {

/// The setting that names the current vault.
pub fn current_vault_key() -> (r: &'static str)
    ensures
        r@ == "notes.current_vault_id"@,
{
    "notes.current_vault_id"
}

/// The identifier of the default vault. It is the same on every device, so that syncing brings the
/// default vaults together.
pub fn default_vault_id() -> (r: &'static str)
    ensures
        r@ == "00000000-0000-0000-0000-000000000001"@,
{
    "00000000-0000-0000-0000-000000000001"
}

/// The name of the default vault.
pub fn default_vault_name() -> (r: &'static str)
    ensures
        r@ == "cognitive-archive"@,
{
    "cognitive-archive"
}

// ---------------------------------------------------------------------------------------------
// The current vault
// ---------------------------------------------------------------------------------------------
/// Sees to it that there is a vault, and a current one: the default vault is made where there is none,
/// and is the current one where none is set.
pub fn ensure_defaults(vaults: &mut Vec<Vault>, settings: &mut Vec<Setting>, now: &str)
    requires
        keys_differ(old(settings)@),
    ensures
        keys_differ(final(settings)@),
        old(vaults)@.len() > 0 ==> final(vaults)@ == old(vaults)@,
        old(vaults)@.len() == 0 ==> final(vaults)@.len() == 1 && final(vaults)@[0].id@
            == "00000000-0000-0000-0000-000000000001"@ && final(vaults)@[0].name@
            == "cognitive-archive"@ && final(vaults)@[0].created_at@ == now@
            && final(vaults)@[0].updated_at@ == now@,
        setting_of(final(settings)@, "notes.current_vault_id"@) == (match setting_of(
            old(settings)@,
            "notes.current_vault_id"@,
        ) {
            Some(v) => Some(v),
            None => Some("00000000-0000-0000-0000-000000000001"@),
        }),
        forall|k: Seq<char>|
            k != "notes.current_vault_id"@ ==> setting_of(final(settings)@, k)
                == #[trigger] setting_of(old(settings)@, k),
{
    if vaults.len() == 0 {
        vaults.push(
            Vault {
                id: default_vault_id().to_owned(),
                name: default_vault_name().to_owned(),
                created_at: now.to_owned(),
                updated_at: now.to_owned(),
            },
        );
    }
    if get_setting(settings, current_vault_key()).is_none() {
        set_setting(settings, current_vault_key(), default_vault_id(), now);
    }
}

/// The vault that is current: the default one where none is set.
pub fn get_current_vault_id(settings: &Vec<Setting>) -> (r: String)
    ensures
        r@ == (match setting_of(settings@, "notes.current_vault_id"@) {
            Some(v) => v,
            None => "00000000-0000-0000-0000-000000000001"@,
        }),
{
    match get_setting(settings, current_vault_key()) {
        Some(v) => v,
        None => default_vault_id().to_owned(),
    }
}

/// Whether some vault has the given id.
pub open spec fn has_vault(vaults: Seq<Vault>, id: Seq<char>) -> bool {
    exists|i: int| 0 <= i < vaults.len() && (#[trigger] vaults[i]).id@ == id
}

/// The place of a vault.
pub fn get_vault(vaults: &Vec<Vault>, id: &str) -> (r: Result<usize, String>)
    ensures
        match r {
            Ok(k) => k < vaults.len() && vaults@[k as int].id@ == id@,
            Err(e) => !has_vault(vaults@, id@) && e@ == "vault not found: "@ + id@,
        },
{
    let mut i: usize = 0;
    while i < vaults.len()
        invariant
            i <= vaults.len(),
            forall|k: int| 0 <= k < i ==> (#[trigger] vaults@[k]).id@ != id@,
        decreases vaults.len() - i,
    {
        if same(vaults[i].id.as_str(), id) {
            return Ok(i);
        }
        i += 1;
    }
    Err(concat2("vault not found: ", id))
}

/// Whether a vault stands before another: the older first, then by their ids.
pub open spec fn stands_before(a: Vault, b: Vault) -> bool {
    text_before(a.created_at@, b.created_at@) || (a.created_at@ == b.created_at@ && text_before(
        a.id@,
        b.id@,
    ))
}

/// Places go as what stands at them is listed.
pub open spec fn by_listing(list: Seq<Vault>) -> spec_fn(int, int) -> bool {
    |a: int, b: int| stands_before(list[a], list[b])
}

/// The places of vaults as they are listed.
pub fn list_vaults(vaults: &Vec<Vault>) -> (r: Vec<usize>)
    ensures
        place_list(r@) == sorted(places(vaults@.len()), by_listing(vaults@)),
        r.len() == vaults.len(),
        forall|i: int| 0 <= i < r.len() ==> #[trigger] r@[i] < vaults.len(),
{
    let goes = |a: usize, b: usize| -> (c: bool)
        requires
            a < vaults.len() && b < vaults.len(),
        ensures
            c == stands_before(vaults@[a as int], vaults@[b as int]),
        {
            let x = &vaults[a];
            let y = &vaults[b];
            goes_before(x.created_at.as_str(), y.created_at.as_str()) || (same(
                x.created_at.as_str(),
                y.created_at.as_str(),
            ) && goes_before(x.id.as_str(), y.id.as_str()))
        };
    order_places(vaults.len(), goes, Ghost(by_listing(vaults@)))
}

/// Makes a vault the current one, if there is such a vault.
pub fn set_current_vault_id(
    vaults: &Vec<Vault>,
    settings: &mut Vec<Setting>,
    id: &str,
    now: &str,
) -> (r: Result<(), String>)
    requires
        keys_differ(old(settings)@),
    ensures
        keys_differ(final(settings)@),
        match r {
            Ok(_) => has_vault(vaults@, id@) && setting_of(
                final(settings)@,
                "notes.current_vault_id"@,
            ) == Some(id@) && forall|k: Seq<char>|
                k != "notes.current_vault_id"@ ==> setting_of(final(settings)@, k)
                    == #[trigger] setting_of(old(settings)@, k),
            Err(e) => !has_vault(vaults@, id@) && e@ == "vault not found: "@ + id@ && final(
                settings)@ == old(settings)@,
        },
{
    match get_vault(vaults, id) {
        Ok(_) => {
            set_setting(settings, current_vault_key(), id, now);
            Ok(())
        },
        Err(e) => Err(e),
    }
}

// ---------------------------------------------------------------------------------------------
// Names
// ---------------------------------------------------------------------------------------------
/// Whether some vault has the given name.
pub open spec fn name_taken(vaults: Seq<Vault>, name: Seq<char>) -> bool {
    exists|i: int| 0 <= i < vaults.len() && (#[trigger] vaults[i]).name@ == name
}

/// Why a new vault does not get a name, if it does not: it is blank, or another vault has it.
pub open spec fn name_error(vaults: Seq<Vault>, name: Seq<char>) -> Option<Seq<char>> {
    if trim(name).len() == 0 {
        Some("库名称不能为空"@)
    } else if name_taken(vaults, trim(name)) {
        Some("已存在同名库「"@ + trim(name) + "」"@)
    } else {
        None
    }
}

fn has_name(vaults: &Vec<Vault>, name: &str) -> (r: bool)
    ensures
        r == name_taken(vaults@, name@),
{
    let mut i: usize = 0;
    while i < vaults.len()
        invariant
            i <= vaults.len(),
            forall|j: int| 0 <= j < i ==> (#[trigger] vaults@[j]).name@ != name@,
        decreases vaults.len() - i,
    {
        if same(vaults[i].name.as_str(), name) {
            assert(vaults@[i as int].name@ == name@);
            return true;
        }
        i += 1;
    }
    false
}

/// Makes a vault, and gives its place.
pub fn create_vault(vaults: &mut Vec<Vault>, name: &str, id: &str, now: &str) -> (r: Result<
    usize,
    String,
>)
    ensures
        match name_error(old(vaults)@, name@) {
            Some(e) => r is Err && r->Err_0@ == e && final(vaults)@ == old(vaults)@,
            None => {
                let v = final(vaults)@.last();
                &&& r is Ok && r->Ok_0 == old(vaults)@.len()
                &&& final(vaults)@.len() == old(vaults)@.len() + 1
                &&& final(vaults)@.drop_last() == old(vaults)@
                &&& v.id@ == id@ && v.name@ == trim(name@) && v.created_at@ == now@ && v.updated_at@
                    == now@
            },
        },
{
    let wanted = trimmed(name);
    if wanted.as_str().is_empty() {
        return Err("库名称不能为空".to_owned());
    }
    if has_name(vaults, wanted.as_str()) {
        return Err(concat3("已存在同名库「", wanted.as_str(), "」"));
    }
    let k = vaults.len();
    vaults.push(
        Vault {
            id: id.to_owned(),
            name: wanted,
            created_at: now.to_owned(),
            updated_at: now.to_owned(),
        },
    );
    assert(vaults@.drop_last() =~= old(vaults)@);
    Ok(k)
}

/// Whether a vault has an id.
pub open spec fn with_id(id: Seq<char>) -> spec_fn(Vault) -> bool {
    |v: Vault| v.id@ == id
}

/// Gives a vault another name, trimmed, and gives its place. A blank one is refused.
pub fn rename_vault(vaults: &mut Vec<Vault>, id: &str, name: &str, now: &str) -> (r: Result<
    usize,
    String,
>)
    ensures
        if trim(name@).len() == 0 {
            r is Err && r->Err_0@ == "库名称不能为空"@ && final(vaults)@ == old(vaults)@
        } else {
            match first_place(old(vaults)@, with_id(id@), 0) {
                Some(k) => r is Ok && r->Ok_0 == k && final(vaults)@.len() == old(vaults)@.len()
                    && final(vaults)@[k].name@ == trim(name@) && final(vaults)@[k].updated_at@
                    == now@ && final(vaults)@[k].id == old(vaults)@[k].id
                    && final(vaults)@[k].created_at == old(vaults)@[k].created_at && forall|j: int|
                    0 <= j < final(vaults)@.len() && j != k ==> #[trigger] final(vaults)@[j] == old(vaults)@[j],
                None => r is Err && r->Err_0@ == "vault not found: "@ + id@ && final(vaults)@ == old(vaults)@,
            }
        },
{
    let wanted = trimmed(name);
    if wanted.as_str().is_empty() {
        return Err("库名称不能为空".to_owned());
    }
    let is = |v: &Vault| -> (c: bool)
        ensures
            c == (v.id@ == id@),
        { same(v.id.as_str(), id) };
    match find_row(vaults, is, Ghost(with_id(id@))) {
        Some(k) => {
            vaults[k].name = wanted;
            vaults[k].updated_at = now.to_owned();
            Ok(k)
        },
        None => Err(concat2("vault not found: ", id)),
    }
}

/// What follows the deletion of a vault.
pub enum Deletion {
    /// The last vault stays.
    Refused(String),
    /// The current vault stays the current one.
    Delete,
    /// Another vault becomes the current one.
    DeleteAndSwitch(String),
}

/// The least of the identifiers other than `id`.
pub open spec fn is_first_other(ids: Seq<Seq<char>>, id: Seq<char>, first: Seq<char>) -> bool {
    &&& first != id
    &&& holds(ids, first)
    &&& forall|i: int|
        0 <= i < ids.len() && #[trigger] ids[i] != id ==> !crate::order::text_before(ids[i], first)
}

/// Decides on the deletion of a vault: the last one stays, and where the current one goes, the
/// first of the others by identifier takes its place.
pub fn plan_deletion(ids: &Vec<String>, current: &str, id: &str) -> (r: Deletion)
    ensures
        match r {
            Deletion::Refused(e) => ids.len() <= 1 && e@ == "不能删除最后一个库"@,
            Deletion::Delete => ids.len() > 1 && (current@ != id@ || forall|i: int|
                0 <= i < ids.len() ==> #[trigger] texts(ids@)[i] == id@),
            Deletion::DeleteAndSwitch(next) => ids.len() > 1 && current@ == id@ && is_first_other(
                texts(ids@),
                id@,
                next@,
            ),
        },
{
    if ids.len() <= 1 {
        return Deletion::Refused("不能删除最后一个库".to_owned());
    }
    if !same(current, id) {
        return Deletion::Delete;
    }
    let ghost all = texts(ids@);
    let mut first: Option<usize> = None;
    let mut i: usize = 0;
    while i < ids.len()
        invariant
            i <= ids.len(),
            all == texts(ids@),
            match first {
                Some(k) => k < i && all[k as int] != id@ && forall|j: int|
                    0 <= j < i && #[trigger] all[j] != id@ ==> !crate::order::text_before(
                        all[j],
                        all[k as int],
                    ),
                None => forall|j: int| 0 <= j < i ==> #[trigger] all[j] == id@,
            },
        decreases ids.len() - i,
    {
        if !same(ids[i].as_str(), id) {
            match first {
                Some(k) => {
                    if crate::order::goes_before(ids[i].as_str(), ids[k].as_str()) {
                        proof {
                            assert forall|j: int|
                                0 <= j < i + 1 && #[trigger] all[j] != id@ implies !crate::order::text_before(
                                all[j],
                                all[i as int],
                            ) by {
                                crate::order::lemma_text_before(
                                    all[j],
                                    all[k as int],
                                    all[i as int],
                                );
                                crate::order::lemma_text_before(
                                    all[i as int],
                                    all[k as int],
                                    all[k as int],
                                );
                                crate::order::lemma_text_before(
                                    all[j],
                                    all[i as int],
                                    all[i as int],
                                );
                                if j < i {
                                    assert(!crate::order::text_before(all[j], all[k as int]));
                                    crate::order::lemma_text_before(
                                        all[j],
                                        all[i as int],
                                        all[k as int],
                                    );
                                }
                            }
                        }
                        first = Some(i);
                    }
                },
                None => {
                    proof {
                        crate::order::lemma_text_before(
                            all[i as int],
                            all[i as int],
                            all[i as int],
                        );
                    }
                    first = Some(i);
                },
            }
        }
        i += 1;
    }
    match first {
        Some(k) => {
            assert(texts(ids@)[k as int] == ids@[k as int]@);
            Deletion::DeleteAndSwitch(ids[k].clone())
        },
        None => Deletion::Delete,
    }
}

// ---------------------------------------------------------------------------------------------
// File names
// ---------------------------------------------------------------------------------------------
/// The characters that no file name may hold.
pub open spec fn is_reserved(c: char) -> bool {
    c == '\\' || c == '/' || c == ':' || c == '*' || c == '?' || c == '"' || c == '<' || c == '>'
        || c == '|'
}

/// A text with `_` for each reserved character.
pub open spec fn unreserved(s: Seq<char>) -> Seq<char> {
    Seq::new(
        s.len(),
        |i: int|
            if is_reserved(s[i]) {
                '_'
            } else {
                s[i]
            },
    )
}

/// A title as a file name: without reserved characters, white space at the ends and dots at the
/// end; a name of its own where nothing is left.
pub open spec fn file_name(title: Seq<char>) -> Seq<char> {
    let name = strip_end(trim(unreserved(title)), "."@);
    if name.len() == 0 {
        "未命名"@
    } else {
        name
    }
}

/// A title as a file name.
pub fn sanitize_filename(name: &str) -> (r: String)
    ensures
        r@ == file_name(name@),
{
    proof {
        reveal_strlit(".");
    }
    let a = chars_of(name);
    let mut out = String::new();
    let mut i: usize = 0;
    while i < a.len()
        invariant
            i <= a.len(),
            a@ == name@,
            out@ == unreserved(name@).take(i as int),
        decreases a.len() - i,
    {
        let c = a[i];
        let bad = c == '\\' || c == '/' || c == ':' || c == '*' || c == '?' || c == '"' || c == '<'
            || c == '>' || c == '|';
        out.push(
            if bad {
                '_'
            } else {
                c
            },
        );
        proof {
            crate::text::lemma_take_next(unreserved(name@), i as int);
        }
        i += 1;
    }
    assert(unreserved(name@).take(name@.len() as int) =~= unreserved(name@));
    let clean = stripped_end(trimmed(out.as_str()).as_str(), ".");
    if clean.as_str().is_empty() {
        "未命名".to_owned()
    } else {
        clean
    }
}

/// A file name holds no reserved character and is never empty.
pub proof fn law_file_name_is_safe(title: Seq<char>)
    ensures
        file_name(title).len() > 0,
        forall|i: int| 0 <= i < file_name(title).len() ==> !is_reserved(#[trigger] file_name(title)[i]),
{
    reveal_strlit("未命名");
    reveal_strlit(".");
    let u = unreserved(title);
    let t = trim(u);
    crate::text::lemma_trim_subrange(u);
    crate::text::lemma_strip_end_prefix(t, "."@);
    let name = strip_end(t, "."@);
    assert forall|i: int| 0 <= i < name.len() implies !is_reserved(#[trigger] name[i]) by {
        assert(name[i] == t[i]);
    }
}

// ---------------------------------------------------------------------------------------------
// Frontmatter
// ---------------------------------------------------------------------------------------------
/// What the frontmatter of a Markdown file says.
pub struct Frontmatter {
    pub aliases: Vec<String>,
    pub tags: Vec<String>,
    pub created_at: Option<String>,
    pub updated_at: Option<String>,
}

/// What a `Frontmatter` says.
pub struct FrontModel {
    pub aliases: Seq<Seq<char>>,
    pub tags: Seq<Seq<char>>,
    pub created_at: Option<Seq<char>>,
    pub updated_at: Option<Seq<char>>,
}

impl View for Frontmatter {
    type V = FrontModel;

    open spec fn view(&self) -> FrontModel {
        FrontModel {
            aliases: texts(self.aliases@),
            tags: texts(self.tags@),
            created_at: opt_text(self.created_at),
            updated_at: opt_text(self.updated_at),
        }
    }
}

/// One item of a list on one line: without white space, hash signs and quotes around it.
pub open spec fn csv_item(s: Seq<char>) -> Seq<char> {
    strip_both(strip_both(trim(strip_both(trim(s), '#')), '"'), '\'')
}

/// The items of the pieces, without the empty ones.
pub open spec fn csv_items(pieces: Seq<Seq<char>>) -> Seq<Seq<char>>
    decreases pieces.len(),
{
    if pieces.len() == 0 {
        Seq::empty()
    } else if csv_item(pieces.last()).len() > 0 {
        csv_items(pieces.drop_last()).push(csv_item(pieces.last()))
    } else {
        csv_items(pieces.drop_last())
    }
}

/// The items of a list on one line.
pub fn split_csv(s: &str) -> (r: Vec<String>)
    ensures
        texts(r@) == csv_items(split(s@, ","@)),
{
    broadcast use lemma_texts_push;

    proof {
        reveal_strlit(",");
    }
    let pieces = split_on(s, ",");
    let ghost all = texts(pieces@);
    let mut out: Vec<String> = Vec::new();
    assert(texts(out@) =~= Seq::empty());
    let mut i: usize = 0;
    while i < pieces.len()
        invariant
            i <= pieces.len(),
            all == texts(pieces@),
            texts(out@) == csv_items(all.take(i as int)),
        decreases pieces.len() - i,
    {
        assert(all.take(i + 1).drop_last() =~= all.take(i as int));
        let ghost before = texts(out@);
        let plain = trimmed(stripped_both(trimmed(pieces[i].as_str()).as_str(), '#').as_str());
        let item = stripped_both(stripped_both(plain.as_str(), '"').as_str(), '\'');
        if !item.as_str().is_empty() {
            out.push(item);
            assert(texts(out@) =~= before.push(csv_item(all[i as int])));
        }
        i += 1;
    }
    assert(all.take(all.len() as int) =~= all);
    out
}

/// How far the reading of a frontmatter has come: what it said, and which list is open.
pub struct FrontState {
    pub said: FrontModel,
    pub in_aliases: bool,
    pub in_tags: bool,
}

/// What a field of a frontmatter says.
pub open spec fn front_value(v: Seq<char>) -> Seq<char> {
    trim(strip_both(strip_both(trim(v), '"'), '\''))
}

/// Takes an item of a list in.
pub open spec fn front_item(s: FrontState, item: Seq<char>) -> FrontState {
    let val = strip_both(strip_both(trim(item), '"'), '\'');
    FrontState {
        said: FrontModel {
            aliases: if s.in_aliases {
                s.said.aliases.push(val)
            } else {
                s.said.aliases
            },
            tags: if s.in_tags {
                s.said.tags.push(val)
            } else {
                s.said.tags
            },
            ..s.said
        },
        ..s
    }
}

/// Takes a field in.
pub open spec fn front_field(s: FrontState, key: Seq<char>, val: Seq<char>) -> FrontState {
    let more = if val.len() > 0 {
        csv_items(split(val, ","@))
    } else {
        Seq::empty()
    };
    let said = if key == "created"@ || key == "date"@ {
        FrontModel { created_at: Some(val), ..s.said }
    } else if key == "updated"@ || key == "modified"@ {
        FrontModel { updated_at: Some(val), ..s.said }
    } else if key == "aliases"@ {
        FrontModel { aliases: s.said.aliases + more, ..s.said }
    } else if key == "tags"@ {
        FrontModel { tags: s.said.tags + more, ..s.said }
    } else {
        s.said
    };
    FrontState { said, in_aliases: key == "aliases"@, in_tags: key == "tags"@ }
}

/// Takes a line in: an item of the open list, a field, or nothing.
pub open spec fn front_line(s: FrontState, line: Seq<char>) -> FrontState {
    let t = trim(line);
    match strip_prefix(t, "- "@) {
        Some(item) => front_item(s, item),
        None => match split_once(t, ":"@) {
            Some((k, v)) => front_field(s, lower(trim(k)), front_value(v)),
            None => s,
        },
    }
}

/// Nothing said yet.
pub open spec fn front_start() -> FrontState {
    FrontState {
        said: FrontModel {
            aliases: Seq::empty(),
            tags: Seq::empty(),
            created_at: None,
            updated_at: None,
        },
        in_aliases: false,
        in_tags: false,
    }
}

/// Takes lines in, one after the other.
pub open spec fn front_lines(list: Seq<Seq<char>>) -> FrontState
    decreases list.len(),
{
    if list.len() == 0 {
        front_start()
    } else {
        front_line(front_lines(list.drop_last()), list.last())
    }
}

/// The block between the `---` that a file starts with and the next one, and what stands behind it;
/// nothing where there is no such block.
pub open spec fn front_split(content: Seq<char>) -> Option<(Seq<char>, Seq<char>)> {
    if !starts_with(content, "---\n"@) {
        None
    } else {
        match split_once(content.skip(4), "\n---"@) {
            Some((block, rest)) => Some(
                (
                    block,
                    match strip_prefix(rest, "\n"@) {
                        Some(body) => body,
                        None => rest,
                    },
                ),
            ),
            None => None,
        }
    }
}

/// The frontmatter of a file, where it has one.
pub open spec fn front_of(content: Seq<char>) -> Option<FrontModel> {
    match front_split(content) {
        Some((block, _)) => Some(front_lines(lines(block)).said),
        None => None,
    }
}

/// The text of a file without its frontmatter.
pub open spec fn body_of(content: Seq<char>) -> Seq<char> {
    match front_split(content) {
        Some((_, body)) => body,
        None => content,
    }
}

/// What an optional frontmatter says.
pub open spec fn opt_front(f: Option<Frontmatter>) -> Option<FrontModel> {
    match f {
        Some(f) => Some(f@),
        None => None,
    }
}

/// Appends strings to a list.
fn extend(list: &mut Vec<String>, more: Vec<String>)
    ensures
        texts(final(list)@) == texts(old(list)@) + texts(more@),
{
    let ghost before = texts(list@);
    let ghost added = texts(more@);
    let mut more = more;
    list.append(&mut more);
    assert(texts(list@) =~= before + added);
}

/// Reads the block of a frontmatter.
fn read_front(block: &str) -> (r: Frontmatter)
    ensures
        r@ == front_lines(lines(block@)).said,
{
    broadcast use lemma_texts_push;

    let list = lines_of(block);
    let ghost all = texts(list@);
    let mut f = Frontmatter {
        aliases: Vec::new(),
        tags: Vec::new(),
        created_at: None,
        updated_at: None,
    };
    let mut in_aliases = false;
    let mut in_tags = false;
    assert(f@.aliases =~= Seq::empty());
    assert(f@.tags =~= Seq::empty());
    let mut i: usize = 0;
    while i < list.len()
        invariant
            i <= list.len(),
            all == texts(list@),
            (FrontState { said: f@, in_aliases, in_tags }) == front_lines(all.take(i as int)),
        decreases list.len() - i,
    {
        let ghost old_state = FrontState { said: f@, in_aliases, in_tags };
        proof {
            assert(all.take(i + 1).drop_last() =~= all.take(i as int));
            assert(all.take(i + 1).last() == all[i as int]);
        }
        let t = trimmed(list[i].as_str());
        match without_prefix(t.as_str(), "- ") {
            Some(item) => {
                let val = stripped_both(
                    stripped_both(trimmed(item.as_str()).as_str(), '"').as_str(),
                    '\'',
                );
                if in_aliases {
                    f.aliases.push(val.clone());
                    assert(f@.aliases =~= old_state.said.aliases.push(val@));
                }
                if in_tags {
                    f.tags.push(val);
                    assert(f@.tags =~= old_state.said.tags.push(val@));
                }
            },
            None => match cut(t.as_str(), ":") {
                Some((k, v)) => {
                    let key = to_lower(trimmed(k.as_str()).as_str());
                    let plain = stripped_both(
                        stripped_both(trimmed(v.as_str()).as_str(), '"').as_str(),
                        '\'',
                    );
                    let val = trimmed(plain.as_str());
                    in_aliases = same(key.as_str(), "aliases");
                    in_tags = same(key.as_str(), "tags");
                    proof {
                        lemma_front_keys();
                        assert(old_state.said.aliases + Seq::<Seq<char>>::empty()
                            =~= old_state.said.aliases);
                        assert(old_state.said.tags + Seq::<Seq<char>>::empty()
                            =~= old_state.said.tags);
                    }
                    if same(key.as_str(), "created") || same(key.as_str(), "date") {
                        f.created_at = Some(val);
                    } else if same(key.as_str(), "updated") || same(key.as_str(), "modified") {
                        f.updated_at = Some(val);
                    } else if in_aliases {
                        if !val.as_str().is_empty() {
                            extend(&mut f.aliases, split_csv(val.as_str()));
                        }
                    } else if in_tags {
                        if !val.as_str().is_empty() {
                            extend(&mut f.tags, split_csv(val.as_str()));
                        }
                    }
                },
                None => {},
            },
        }
        i += 1;
    }
    assert(all.take(all.len() as int) =~= all);
    f
}

/// The keys of a frontmatter are different from one another.
proof fn lemma_front_keys()
    ensures
        "aliases"@ != "tags"@,
        "created"@ != "aliases"@ && "created"@ != "tags"@ && "date"@ != "aliases"@ && "date"@
            != "tags"@,
        "updated"@ != "aliases"@ && "updated"@ != "tags"@ && "modified"@ != "aliases"@
            && "modified"@ != "tags"@,
        "created"@ != "updated"@ && "created"@ != "modified"@ && "date"@ != "updated"@ && "date"@
            != "modified"@,
{
    reveal_strlit("aliases");
    reveal_strlit("tags");
    reveal_strlit("created");
    reveal_strlit("date");
    reveal_strlit("updated");
    reveal_strlit("modified");
    assert("aliases"@[0] == 'a' && "tags"@[0] == 't' && "created"@[0] == 'c' && "date"@[0] == 'd'
        && "updated"@[0] == 'u' && "modified"@[0] == 'm');
}

/// Reads a file: its frontmatter, where it starts with one, and the text behind that.
pub fn parse_frontmatter(content: &str) -> (r: (Option<Frontmatter>, String))
    ensures
        opt_front(r.0) == front_of(content@),
        r.1@ == body_of(content@),
{
    proof {
        reveal_strlit("---\n");
    }
    match without_prefix(content, "---\n") {
        Some(after) => match cut(after.as_str(), "\n---") {
            Some((block, rest)) => {
                let body = match without_prefix(rest.as_str(), "\n") {
                    Some(b) => b,
                    None => rest,
                };
                (Some(read_front(block.as_str())), body)
            },
            None => (None, content.to_owned()),
        },
        None => (None, content.to_owned()),
    }
}

/// The lines of a list under its key; nothing for an empty list.
pub open spec fn front_list(key: Seq<char>, items: Seq<Seq<char>>) -> Seq<char> {
    if items.len() == 0 {
        Seq::empty()
    } else {
        key + ":\n"@ + front_list_items(items)
    }
}

/// The lines of the items of a list.
pub open spec fn front_list_items(items: Seq<Seq<char>>) -> Seq<char>
    decreases items.len(),
{
    if items.len() == 0 {
        Seq::empty()
    } else {
        front_list_items(items.drop_last()) + "  - "@ + items.last() + "\n"@
    }
}

/// A note as a Markdown file: its frontmatter, an empty line and its text.
pub open spec fn markdown(
    created: Seq<char>,
    updated: Seq<char>,
    aliases: Seq<Seq<char>>,
    tags: Seq<Seq<char>>,
    content: Seq<char>,
) -> Seq<char> {
    "---\n"@ + "created: "@ + created + "\n"@ + "updated: "@ + updated + "\n"@ + front_list(
        "aliases"@,
        aliases,
    ) + front_list("tags"@, tags) + "---\n\n"@ + content
}

fn front_list_text(key: &str, items: &Vec<String>) -> (r: String)
    ensures
        r@ == front_list(key@, texts(items@)),
{
    if items.len() == 0 {
        return String::new();
    }
    let ghost all = texts(items@);
    let mut out = concat2(key, ":\n");
    let ghost head = out@;
    assert(head + front_list_items(all.take(0)) =~= head);
    let mut i: usize = 0;
    while i < items.len()
        invariant
            i <= items.len(),
            all == texts(items@),
            out@ == head + front_list_items(all.take(i as int)),
        decreases items.len() - i,
    {
        let ghost so_far = front_list_items(all.take(i as int));
        proof {
            assert(all.take(i + 1).drop_last() =~= all.take(i as int));
            assert(all.take(i + 1).last() == all[i as int]);
        }
        out.append("  - ");
        out.append(items[i].as_str());
        out.append("\n");
        assert(out@ =~= head + (so_far + "  - "@ + all[i as int] + "\n"@));
        i += 1;
    }
    assert(all.take(all.len() as int) =~= all);
    out
}

/// A note as a Markdown file, with the given aliases and tags.
pub fn markdown_text(
    created: &str,
    updated: &str,
    aliases: &Vec<String>,
    tags: &Vec<String>,
    content: &str,
) -> (r: String)
    ensures
        r@ == markdown(created@, updated@, texts(aliases@), texts(tags@), content@),
{
    let mut out = concat3("---\n", "created: ", created);
    out.append("\n");
    out.append("updated: ");
    out.append(updated);
    out.append("\n");
    out.append(front_list_text("aliases", aliases).as_str());
    out.append(front_list_text("tags", tags).as_str());
    out.append("---\n\n");
    out.append(content);
    out
}

// ---------------------------------------------------------------------------------------------
// Export
// ---------------------------------------------------------------------------------------------
/// The `n`-th name that a file may get in a directory: the plain one first, then numbered ones.
pub open spec fn nth_path(dir: Seq<char>, base: Seq<char>, n: nat) -> Seq<char> {
    if n <= 1 {
        dir + base + ".md"@
    } else {
        dir + base + " ("@ + decimal(n) + ").md"@
    }
}

/// The first name from the `n`-th on, among the next `more`, that is not taken.
pub open spec fn free_path(
    taken: Seq<Seq<char>>,
    dir: Seq<char>,
    base: Seq<char>,
    n: nat,
    more: nat,
) -> Seq<char>
    decreases more,
{
    if more > 0 && holds(taken, nth_path(dir, base, n)) {
        free_path(taken, dir, base, n + 1, (more - 1) as nat)
    } else {
        nth_path(dir, base, n)
    }
}

/// The path of a file in a directory: its plain name, or where that is taken the first numbered
/// one that is not. Among one more than the taken ones one is free.
pub open spec fn unique(taken: Seq<Seq<char>>, dir: Seq<char>, base: Seq<char>) -> Seq<char> {
    free_path(taken, dir, base, 1, taken.len())
}

fn path_number(dir: &str, base: &str, n: u128) -> (r: String)
    ensures
        r@ == nth_path(dir@, base@, n as nat),
{
    if n <= 1 {
        concat3(dir, base, ".md")
    } else {
        let mut s = concat3(dir, base, " (");
        s.append(wide_decimal_of(n).as_str());
        s.append(").md");
        s
    }
}

/// The path of a file in a directory: its plain name, or where that is taken the first numbered
/// one that is not.
pub fn unique_path(taken: &Vec<String>, dir: &str, base: &str) -> (r: String)
    ensures
        r@ == unique(texts(taken@), dir@, base@),
        !holds(texts(taken@), r@),
{
    let ghost all = texts(taken@);
    let mut n: u128 = 1;
    let mut left: usize = taken.len();
    let mut path = path_number(dir, base, n);
    while left > 0 && list_has(taken, path.as_str())
        invariant
            all == texts(taken@),
            left <= taken.len(),
            n + left == taken.len() + 1,
            path@ == nth_path(dir@, base@, n as nat),
            unique(all, dir@, base@) == free_path(all, dir@, base@, n as nat, left as nat),
            forall|k: nat| 1 <= k < n ==> holds(all, #[trigger] nth_path(dir@, base@, k)),
        decreases left,
    {
        n += 1;
        left -= 1;
        path = path_number(dir, base, n);
    }
    proof {
        if holds(all, path@) {
            assert(left == 0);
            assert forall|k: nat| 1 <= k <= n implies holds(all, #[trigger] nth_path(dir@, base@, k)) by {
                if k == n {
                }
            }
            lemma_names_run_out(all, dir@, base@, n as nat);
        }
    }
    path
}

/// Different numbers give different names.
proof fn lemma_paths_differ(dir: Seq<char>, base: Seq<char>, a: nat, b: nat)
    requires
        1 <= a < b,
    ensures
        nth_path(dir, base, a) != nth_path(dir, base, b),
{
    reveal_strlit(".md");
    reveal_strlit(" (");
    reveal_strlit(").md");
    let x = nth_path(dir, base, a);
    let y = nth_path(dir, base, b);
    let n = (dir + base).len() as int;
    if a == 1 {
        assert(x[n] == '.');
        assert(y[n] == ' ');
    } else if x == y {
        let da = decimal(a);
        let db = decimal(b);
        assert(x.len() == n + 2 + da.len() + 4);
        assert(y.len() == n + 2 + db.len() + 4);
        assert(x.subrange(n + 2, n + 2 + da.len()) =~= da);
        assert(y.subrange(n + 2, n + 2 + db.len()) =~= db);
        crate::text::lemma_decimal_value(a);
        crate::text::lemma_decimal_value(b);
    }
}

/// Not all of the first `n` names can be taken where fewer than `n` are.
proof fn lemma_names_run_out(taken: Seq<Seq<char>>, dir: Seq<char>, base: Seq<char>, n: nat)
    requires
        n > taken.len(),
    ensures
        exists|k: nat| 1 <= k <= n && !holds(taken, #[trigger] nth_path(dir, base, k)),
{
    if forall|k: nat| 1 <= k <= n ==> holds(taken, #[trigger] nth_path(dir, base, k)) {
        lemma_taken_names(taken, dir, base, n);
    }
}

/// Where the first `n` names are taken, at least `n` are.
proof fn lemma_taken_names(taken: Seq<Seq<char>>, dir: Seq<char>, base: Seq<char>, n: nat)
    requires
        forall|k: nat| 1 <= k <= n ==> holds(taken, #[trigger] nth_path(dir, base, k)),
    ensures
        n <= taken.len(),
{
    let names = Seq::new(n, |i: int| nth_path(dir, base, (i + 1) as nat));
    assert(names.no_duplicates()) by {
        assert forall|i: int, j: int| 0 <= i < names.len() && 0 <= j < names.len() && i != j implies names[i]
            != names[j] by {
            if i < j {
                lemma_paths_differ(dir, base, (i + 1) as nat, (j + 1) as nat);
            } else {
                lemma_paths_differ(dir, base, (j + 1) as nat, (i + 1) as nat);
            }
        }
    }
    names.unique_seq_to_set();
    taken.lemma_cardinality_of_set();
    assert(names.to_set().subset_of(taken.to_set())) by {
        assert forall|p: Seq<char>| names.to_set().contains(p) implies taken.to_set().contains(
            p,
        ) by {
            let i = choose|i: int| 0 <= i < names.len() && names[i] == p;
            assert(holds(taken, nth_path(dir, base, (i + 1) as nat)));
            let k = choose|k: int| 0 <= k < taken.len() && #[trigger] taken[k] == p;
            assert(taken[k] == p);
        }
    }
    vstd::set_lib::lemma_len_subset(names.to_set(), taken.to_set());
}

/// A file of an export: its path below the target, and what it holds.
pub struct ExportFile {
    pub path: String,
    pub text: String,
}

/// What an `ExportFile` says.
pub struct FileModel {
    pub path: Seq<char>,
    pub text: Seq<char>,
}

/// What a list of files says.
pub open spec fn file_models(v: Seq<ExportFile>) -> Seq<FileModel> {
    Seq::new(v.len(), |i: int| FileModel { path: v[i].path@, text: v[i].text@ })
}

/// The paths of a list of files.
pub open spec fn file_paths(files: Seq<FileModel>) -> Seq<Seq<char>> {
    Seq::new(files.len(), |i: int| files[i].path)
}

/// A note as a Markdown file.
pub open spec fn note_markdown(n: Note) -> Seq<char> {
    markdown(
        n.created_at@,
        n.updated_at@,
        crate::citation_export::names_in(n.aliases@),
        crate::citation_export::names_in(n.tags@),
        n.content@,
    )
}

/// The files for the notes from the `i`-th on that have the given parent, and for the notes below
/// them, behind the files that there are. A note's file stands in `dir`; the notes below it stand
/// in a directory there with its name, down to the given depth.
pub open spec fn tree_files(
    notes: Seq<Note>,
    existing: Seq<Seq<char>>,
    parent: Option<Seq<char>>,
    dir: Seq<char>,
    files: Seq<FileModel>,
    i: int,
    depth: nat,
) -> Seq<FileModel>
    decreases depth, notes.len() - i,
{
    if i < 0 || i >= notes.len() {
        files
    } else if opt_text(notes[i].parent_id) == parent {
        let name = file_name(notes[i].title@);
        let path = unique(existing + file_paths(files), dir, name);
        let with_note = files.push(FileModel { path, text: note_markdown(notes[i]) });
        let with_tree = if depth > 0 {
            tree_files(
                notes,
                existing,
                Some(notes[i].id@),
                dir + name + "/"@,
                with_note,
                0,
                (depth - 1) as nat,
            )
        } else {
            with_note
        };
        tree_files(notes, existing, parent, dir, with_tree, i + 1, depth)
    } else {
        tree_files(notes, existing, parent, dir, files, i + 1, depth)
    }
}

/// The files of an export into a directory that already holds the files `existing`: the notes
/// without a parent stand at its top. Notes are at most as deep as there are notes.
pub open spec fn export_files(notes: Seq<Note>, existing: Seq<Seq<char>>) -> Seq<FileModel> {
    tree_files(notes, existing, None, Seq::empty(), Seq::empty(), 0, notes.len())
}

fn write_tree(
    notes: &Vec<Note>,
    parent: Option<&str>,
    dir: &str,
    existing: Ghost<Seq<Seq<char>>>,
    taken: &mut Vec<String>,
    files: &mut Vec<ExportFile>,
    depth: usize,
)
    requires
        texts(old(taken)@) == existing@ + file_paths(file_models(old(files)@)),
    ensures
        texts(final(taken)@) == existing@ + file_paths(file_models(final(files)@)),
        file_models(final(files)@) == tree_files(
            notes@,
            existing@,
            match parent {
                Some(p) => Some(p@),
                None => None,
            },
            dir@,
            file_models(old(files)@),
            0,
            depth as nat,
        ),
    decreases depth,
{
    broadcast use lemma_texts_push;

    let ghost p = match parent {
        Some(p) => Some(p@),
        None => None,
    };
    let ghost start = file_models(files@);
    let ghost goal = tree_files(notes@, existing@, p, dir@, start, 0, depth as nat);
    let mut i: usize = 0;
    while i < notes.len()
        invariant
            i <= notes.len(),
            p == (match parent {
                Some(p) => Some(p@),
                None => None,
            }),
            goal == tree_files(
                notes@,
                existing@,
                p,
                dir@,
                file_models(files@),
                i as int,
                depth as nat,
            ),
            texts(taken@) == existing@ + file_paths(file_models(files@)),
        decreases notes.len() - i,
    {
        let note = &notes[i];
        let here = match (&note.parent_id, parent) {
            (Some(a), Some(b)) => same(a.as_str(), b),
            (None, None) => true,
            _ => false,
        };
        if here {
            let name = sanitize_filename(note.title.as_str());
            let path = unique_path(taken, dir, name.as_str());
            let text = markdown_text(
                note.created_at.as_str(),
                note.updated_at.as_str(),
                &crate::citation_export::parse_authors(note.aliases.as_str()),
                &crate::citation_export::parse_authors(note.tags.as_str()),
                note.content.as_str(),
            );
            let ghost before = file_models(files@);
            let ghost paths = file_paths(before);
            let ghost known = texts(taken@);
            taken.push(path.clone());
            files.push(ExportFile { path, text });
            proof {
                assert(file_models(files@) =~= before.push(
                    FileModel { path: path@, text: text@ },
                ));
                assert(file_paths(file_models(files@)) =~= paths.push(path@));
                assert(texts(taken@) =~= known.push(path@));
                assert(known.push(path@) =~= existing@ + paths.push(path@));
            }
            if depth > 0 {
                let sub = concat3(dir, name.as_str(), "/");
                write_tree(
                    notes,
                    Some(note.id.as_str()),
                    sub.as_str(),
                    existing,
                    taken,
                    files,
                    depth - 1,
                );
            }
        }
        i += 1;
    }
}

/// The files that a vault's notes are exported to, below a directory that already holds the files
/// `existing`. The directories mirror the notes' parents, and no file takes the place of another.
pub fn export_vault(notes: &Vec<Note>, existing: &Vec<String>) -> (r: Vec<ExportFile>)
    ensures
        file_models(r@) == export_files(notes@, texts(existing@)),
{
    let mut taken = crate::text::copy_texts(existing);
    let mut files: Vec<ExportFile> = Vec::new();
    proof {
        assert(file_models(files@) =~= Seq::empty());
        assert(file_paths(file_models(files@)) =~= Seq::empty());
        assert(texts(existing@) + Seq::<Seq<char>>::empty() =~= texts(existing@));
        reveal_strlit("");
        assert(""@ =~= Seq::<char>::empty());
    }
    write_tree(notes, None, "", Ghost(texts(existing@)), &mut taken, &mut files, notes.len());
    files
}

proof fn lemma_free_path(
    taken: Seq<Seq<char>>,
    dir: Seq<char>,
    base: Seq<char>,
    n: nat,
    more: nat,
)
    requires
        1 <= n,
        n + more == taken.len() + 1,
        forall|k: nat| 1 <= k < n ==> holds(taken, #[trigger] nth_path(dir, base, k)),
    ensures
        !holds(taken, free_path(taken, dir, base, n, more)),
    decreases more,
{
    if holds(taken, nth_path(dir, base, n)) {
        if more > 0 {
            lemma_free_path(taken, dir, base, n + 1, (more - 1) as nat);
        } else {
            assert forall|k: nat| 1 <= k <= n implies holds(taken, #[trigger] nth_path(dir, base, k)) by {
                if k == n {
                }
            }
            lemma_taken_names(taken, dir, base, n);
        }
    }
}

/// Whether the paths differ from one another and from the existing ones.
pub open spec fn fresh_paths(existing: Seq<Seq<char>>, files: Seq<FileModel>) -> bool {
    &&& forall|i: int| 0 <= i < files.len() ==> !holds(existing, (#[trigger] files[i]).path)
    &&& forall|i: int, j: int|
        0 <= i < j < files.len() ==> (#[trigger] files[i]).path != (#[trigger] files[j]).path
}

proof fn lemma_tree_files_fresh(
    notes: Seq<Note>,
    existing: Seq<Seq<char>>,
    parent: Option<Seq<char>>,
    dir: Seq<char>,
    files: Seq<FileModel>,
    i: int,
    depth: nat,
)
    requires
        fresh_paths(existing, files),
    ensures
        fresh_paths(existing, tree_files(notes, existing, parent, dir, files, i, depth)),
    decreases depth, notes.len() - i,
{
    if i < 0 || i >= notes.len() {
    } else if opt_text(notes[i].parent_id) == parent {
        let name = file_name(notes[i].title@);
        let taken = existing + file_paths(files);
        let path = unique(taken, dir, name);
        let with_note = files.push(FileModel { path, text: note_markdown(notes[i]) });
        lemma_free_path(taken, dir, name, 1, taken.len());
        assert(fresh_paths(existing, with_note)) by {
            assert forall|k: int| 0 <= k < with_note.len() implies !holds(
                existing,
                (#[trigger] with_note[k]).path,
            ) by {
                if k == files.len() && holds(existing, path) {
                    let m = choose|m: int| 0 <= m < existing.len() && #[trigger] existing[m] == path;
                    assert(taken[m] == path);
                }
                if k < files.len() {
                    assert(with_note[k] == files[k]);
                }
            }
            assert forall|a: int, b: int| 0 <= a < b < with_note.len() implies (
            #[trigger] with_note[a]).path != (#[trigger] with_note[b]).path by {
                assert(with_note[a] == files[a]);
                if b == files.len() {
                    assert(taken[existing.len() + a] == files[a].path);
                } else {
                    assert(with_note[b] == files[b]);
                }
            }
        }
        if depth > 0 {
            let sub = dir + name + "/"@;
            let id = Some(notes[i].id@);
            let with_tree = tree_files(
                notes,
                existing,
                id,
                sub,
                with_note,
                0,
                (depth - 1) as nat,
            );
            lemma_tree_files_fresh(notes, existing, id, sub, with_note, 0, (depth - 1) as nat);
            lemma_tree_files_fresh(notes, existing, parent, dir, with_tree, i + 1, depth);
        } else {
            lemma_tree_files_fresh(notes, existing, parent, dir, with_note, i + 1, depth);
        }
    } else {
        lemma_tree_files_fresh(notes, existing, parent, dir, files, i + 1, depth);
    }
}

/// An export overwrites nothing: no two notes get one path, and none gets the path of a file that
/// is there.
pub proof fn law_export_overwrites_nothing(notes: Seq<Note>, existing: Seq<Seq<char>>)
    ensures
        fresh_paths(existing, export_files(notes, existing)),
{
    lemma_tree_files_fresh(
        notes,
        existing,
        None,
        Seq::empty(),
        Seq::empty(),
        0,
        notes.len(),
    );
}

} // verus!
