//! The language models that a user has set up: their order, which of them is the default, and the
//! move of older settings into the list.
use vstd::prelude::*;
use vstd::string::*;

use crate::json::{json_value, parse_json, Json};
use crate::models::Setting;
use crate::order::{in_order, law_sorted, order_places, place_list, places, sorted, text_before};
use crate::settings_service::{get_setting, setting_of};
use crate::text::{
    concat2, concat3, copy_opt, lowercase_of, opt_text, parse_i64_within, parse_signed, same,
    to_lowercase,
};

verus! {

/// A language model that is set up. `T` is how warm its answers are.
pub struct LlmProvider<T> {
    pub id: String,
    pub name: String,
    pub provider: String,
    pub model: String,
    pub api_key: String,
    pub base_url: String,
    pub proxy: Option<String>,
    pub max_tokens: Option<i32>,
    pub temperature: Option<T>,
    pub extra_body: Option<String>,
    pub is_default: bool,
    pub is_vision: bool,
    pub sort_order: i32,
    pub created_at: String,
    pub updated_at: String,
}

/// What a caller says of a language model.
pub struct LlmProviderInput<T> {
    pub name: String,
    pub provider: String,
    pub model: String,
    pub api_key: String,
    pub base_url: String,
    pub proxy: Option<String>,
    pub max_tokens: Option<i32>,
    pub temperature: Option<T>,
    pub extra_body: Option<String>,
    pub is_default: Option<bool>,
    pub is_vision: Option<bool>,
}

/// What is needed to talk to a language model.
pub struct LlmConfigBlock<T> {
    pub provider: String,
    pub model: String,
    pub api_key: String,
    pub base_url: String,
    pub proxy: Option<String>,
    pub max_tokens: Option<i32>,
    pub temperature: Option<T>,
    pub extra_body: Option<Json>,
}

// ---------------------------------------------------------------------------------------------
// Lists
// ---------------------------------------------------------------------------------------------
/// Whether no two models have the same id.
pub open spec fn ids_differ<T>(list: Seq<LlmProvider<T>>) -> bool {
    forall|i: int, j: int|
        0 <= i < j < list.len() ==> (#[trigger] list[i]).id@ != (#[trigger] list[j]).id@
}

/// Whether at most one model is the default.
pub open spec fn one_default<T>(list: Seq<LlmProvider<T>>) -> bool {
    forall|i: int, j: int|
        0 <= i < list.len() && 0 <= j < list.len() && (#[trigger] list[i]).is_default && (
        #[trigger] list[j]).is_default ==> i == j
}

/// The place of the first model from `i` on that has an id.
pub open spec fn provider_from<T>(list: Seq<LlmProvider<T>>, id: Seq<char>, i: int) -> Option<int>
    decreases list.len() - i,
{
    if i < 0 || i >= list.len() {
        None
    } else if list[i].id@ == id {
        Some(i)
    } else {
        provider_from(list, id, i + 1)
    }
}

/// What is said where there is no such model.
pub open spec fn not_found(id: Seq<char>) -> Seq<char> {
    "provider not found: "@ + id
}

/// The place of a model.
pub fn get_provider<T>(list: &Vec<LlmProvider<T>>, id: &str) -> (r: Result<usize, String>)
    ensures
        match r {
            Ok(k) => k < list.len() && provider_from(list@, id@, 0) == Some(k as int)
                && list@[k as int].id@ == id@,
            Err(e) => provider_from(list@, id@, 0) is None && e@ == not_found(id@) && forall|k: int|
                0 <= k < list.len() ==> (#[trigger] list@[k]).id@ != id@,
        },
{
    let mut i: usize = 0;
    while i < list.len()
        invariant
            i <= list.len(),
            provider_from(list@, id@, 0) == provider_from(list@, id@, i as int),
            forall|k: int| 0 <= k < i ==> (#[trigger] list@[k]).id@ != id@,
        decreases list.len() - i,
    {
        if same(list[i].id.as_str(), id) {
            return Ok(i);
        }
        i += 1;
    }
    Err(concat2("provider not found: ", id))
}

/// Whether a model is shown before another: the default first, then by their numbers and by when
/// they came.
pub open spec fn shown_before<T>(a: LlmProvider<T>, b: LlmProvider<T>) -> bool {
    (a.is_default && !b.is_default) || (a.is_default == b.is_default && comes_before(a, b))
}

/// Whether a model has a lower number than another, or the same and came before.
pub open spec fn comes_before<T>(a: LlmProvider<T>, b: LlmProvider<T>) -> bool {
    a.sort_order < b.sort_order || (a.sort_order == b.sort_order && text_before(
        a.created_at@,
        b.created_at@,
    ))
}

/// Places go as what stands at them is shown.
pub open spec fn by_shown<T>(list: Seq<LlmProvider<T>>) -> spec_fn(int, int) -> bool {
    |a: int, b: int| shown_before(list[a], list[b])
}

fn earlier<T>(a: &LlmProvider<T>, b: &LlmProvider<T>) -> (r: bool)
    ensures
        r == comes_before(*a, *b),
{
    a.sort_order < b.sort_order || (a.sort_order == b.sort_order && crate::order::goes_before(
        a.created_at.as_str(),
        b.created_at.as_str(),
    ))
}

fn shown_earlier<T>(a: &LlmProvider<T>, b: &LlmProvider<T>) -> (r: bool)
    ensures
        r == shown_before(*a, *b),
{
    (a.is_default && !b.is_default) || (a.is_default == b.is_default && earlier(a, b))
}

/// The places of all models as they are shown.
pub fn list_providers<T>(list: &Vec<LlmProvider<T>>) -> (r: Vec<usize>)
    ensures
        place_list(r@) == sorted(places(list@.len()), by_shown(list@)),
        r.len() == list.len(),
        forall|i: int| 0 <= i < r.len() ==> #[trigger] r@[i] < list.len(),
{
    let goes = |a: usize, b: usize| -> (c: bool)
        requires
            a < list.len() && b < list.len(),
        ensures
            c == shown_before(list@[a as int], list@[b as int]),
        { shown_earlier(&list[a], &list[b]) };
    order_places(list.len(), goes, Ghost(by_shown(list@)))
}

/// Models are shown in order: none before one that comes before it, and each once.
pub proof fn law_listed_in_order<T>(list: Seq<LlmProvider<T>>)
    ensures
        in_order(sorted(places(list.len()), by_shown(list)), by_shown(list)),
        sorted(places(list.len()), by_shown(list)).to_multiset() == places(
            list.len(),
        ).to_multiset(),
{
    let before = by_shown(list);
    assert forall|a: int, b: int| #[trigger] before(a, b) implies !before(b, a) by {
        crate::order::lemma_text_before(
            list[a].created_at@,
            list[b].created_at@,
            list[b].created_at@,
        );
    }
    assert forall|a: int, b: int, c: int| #[trigger] before(a, c) implies #[trigger] before(a, b)
        || #[trigger] before(b, c) by {
        crate::order::lemma_text_before(
            list[a].created_at@,
            list[b].created_at@,
            list[c].created_at@,
        );
    }
    law_sorted(places(list.len()), before);
}

// ---------------------------------------------------------------------------------------------
// Changes
// ---------------------------------------------------------------------------------------------
/// A flag that may be missing.
pub open spec fn flag(o: Option<bool>) -> bool {
    o == Some(true)
}

fn flag_of(o: Option<bool>) -> (r: bool)
    ensures
        r == flag(o),
{
    match o {
        Some(b) => b,
        None => false,
    }
}

/// Whether two models are the same but for the default.
pub open spec fn same_but_default<T>(a: LlmProvider<T>, b: LlmProvider<T>) -> bool {
    &&& a.id == b.id && a.name == b.name && a.provider == b.provider && a.model == b.model
    &&& a.api_key == b.api_key && a.base_url == b.base_url && a.proxy == b.proxy
    &&& a.max_tokens == b.max_tokens && a.temperature == b.temperature && a.extra_body
        == b.extra_body
    &&& a.is_vision == b.is_vision && a.sort_order == b.sort_order && a.created_at == b.created_at
        && a.updated_at == b.updated_at
}

/// Whether `r` is the list without a default.
pub open spec fn is_cleared<T>(list: Seq<LlmProvider<T>>, r: Seq<LlmProvider<T>>) -> bool {
    &&& r.len() == list.len()
    &&& forall|i: int|
        0 <= i < r.len() ==> !(#[trigger] r[i]).is_default && same_but_default(r[i], list[i])
}

fn clear_default<T>(list: &mut Vec<LlmProvider<T>>)
    ensures
        is_cleared(old(list)@, final(list)@),
{
    let mut i: usize = 0;
    let n: usize = list.len();
    while i < n
        invariant
            i <= n,
            n == list.len(),
            n == old(list)@.len(),
            forall|k: int|
                0 <= k < i ==> !(#[trigger] list@[k]).is_default && same_but_default(
                    list@[k],
                    old(list)@[k],
                ),
            forall|k: int| i <= k < n ==> #[trigger] list@[k] == old(list)@[k],
        decreases n - i,
    {
        list[i].is_default = false;
        i += 1;
    }
}

/// The highest number among models, or 0.
pub open spec fn highest<T>(list: Seq<LlmProvider<T>>) -> int
    decreases list.len(),
{
    if list.len() == 0 {
        0
    } else if list.len() == 1 {
        list[0].sort_order as int
    } else {
        let before = highest(list.drop_last());
        if list.last().sort_order > before {
            list.last().sort_order as int
        } else {
            before
        }
    }
}

fn highest_of<T>(list: &Vec<LlmProvider<T>>) -> (r: i32)
    ensures
        r == highest(list@),
{
    if list.len() == 0 {
        return 0;
    }
    let mut most: i32 = list[0].sort_order;
    let mut i: usize = 1;
    while i < list.len()
        invariant
            1 <= i <= list.len(),
            most == highest(list@.take(i as int)),
        decreases list.len() - i,
    {
        proof {
            assert(list@.take(i + 1).drop_last() =~= list@.take(i as int));
            assert(list@.take(i + 1).last() == list@[i as int]);
        }
        if list[i].sort_order > most {
            most = list[i].sort_order;
        }
        i += 1;
    }
    assert(list@.take(list.len() as int) =~= list@);
    most
}

/// Whether a model is as a caller said.
pub open spec fn is_as_said<T>(p: LlmProvider<T>, input: LlmProviderInput<T>) -> bool {
    &&& p.name == input.name && p.provider == input.provider && p.model == input.model
    &&& p.api_key == input.api_key && p.base_url == input.base_url && p.proxy == input.proxy
    &&& p.max_tokens == input.max_tokens && p.temperature == input.temperature && p.extra_body
        == input.extra_body
    &&& p.is_default == flag(input.is_default) && p.is_vision == flag(input.is_vision)
}

/// The list as it is before a change: without a default where the change makes one.
pub open spec fn made_ready<T>(
    list: Seq<LlmProvider<T>>,
    r: Seq<LlmProvider<T>>,
    new_default: bool,
) -> bool {
    if new_default {
        is_cleared(list, r)
    } else {
        r == list
    }
}

/// Adds a model, behind all others. A new default takes the place of the old one.
pub fn create_provider<T>(
    list: &mut Vec<LlmProvider<T>>,
    input: LlmProviderInput<T>,
    id: &str,
    now: &str,
)
    requires
        highest(old(list)@) < i32::MAX,
        ids_differ(old(list)@),
        forall|k: int| 0 <= k < old(list)@.len() ==> (#[trigger] old(list)@[k]).id@ != id@,
    ensures
        final(list)@.len() == old(list)@.len() + 1,
        made_ready(old(list)@, final(list)@.drop_last(), flag(input.is_default)),
        is_as_said(final(list)@.last(), input),
        final(list)@.last().id@ == id@,
        final(list)@.last().sort_order == highest(old(list)@) + 1,
        final(list)@.last().created_at@ == now@,
        final(list)@.last().updated_at@ == now@,
        one_default(old(list)@) || flag(input.is_default) ==> one_default(final(list)@),
        ids_differ(final(list)@),
{
    let sort_order: i32 = highest_of(list) + 1;
    let is_default = flag_of(input.is_default);
    if is_default {
        clear_default(list);
    }
    let ghost ready = list@;
    let p = LlmProvider {
        id: id.to_owned(),
        name: input.name,
        provider: input.provider,
        model: input.model,
        api_key: input.api_key,
        base_url: input.base_url,
        proxy: input.proxy,
        max_tokens: input.max_tokens,
        temperature: input.temperature,
        extra_body: input.extra_body,
        is_default,
        is_vision: flag_of(input.is_vision),
        sort_order,
        created_at: now.to_owned(),
        updated_at: now.to_owned(),
    };
    list.push(p);
    proof {
        assert(list@.drop_last() =~= ready);
        assert forall|i: int, j: int| 0 <= i < j < list@.len() implies (#[trigger] list@[i]).id@
            != (#[trigger] list@[j]).id@ by {
            assert(list@[i].id@ == old(list)@[i].id@);
            if j < ready.len() {
                assert(list@[j].id@ == old(list)@[j].id@);
            }
        }
    }
}

/// Changes a model. A new default takes the place of the old one, also where there is no model with
/// that id; then nothing else changes.
pub fn update_provider<T>(
    list: &mut Vec<LlmProvider<T>>,
    id: &str,
    input: LlmProviderInput<T>,
    now: &str,
) -> (r: Result<usize, String>)
    requires
        ids_differ(old(list)@),
    ensures
        match r {
            Ok(k) => provider_from(old(list)@, id@, 0) == Some(k as int) && k < final(list)@.len()
                && final(list)@.len() == old(list)@.len() && is_as_said(
                final(list)@[k as int],
                input,
            ) && final(list)@[k as int].id@ == id@ && final(list)@[k as int].sort_order
                == old(list)@[k as int].sort_order && final(list)@[k as int].created_at == old(
                list)@[k as int].created_at && final(list)@[k as int].updated_at@ == now@
                && forall|j: int|
                0 <= j < final(list)@.len() && j != k ==> same_but_default(
                    #[trigger] final(list)@[j],
                    old(list)@[j],
                ) && final(list)@[j].is_default == (old(list)@[j].is_default && !flag(
                    input.is_default,
                )),
            Err(e) => provider_from(old(list)@, id@, 0) is None && e@ == not_found(id@)
                && made_ready(old(list)@, final(list)@, flag(input.is_default)),
        },
        one_default(old(list)@) || flag(input.is_default) ==> one_default(final(list)@),
        ids_differ(final(list)@),
{
    let is_default = flag_of(input.is_default);
    let ghost start = list@;
    let found = get_provider(list, id);
    if is_default {
        clear_default(list);
    }
    let ghost ready = list@;
    proof {
        assert forall|i: int, j: int| 0 <= i < j < ready.len() implies (#[trigger] ready[i]).id@
            != (#[trigger] ready[j]).id@ by {
            assert(ready[i].id@ == start[i].id@ && ready[j].id@ == start[j].id@);
        }
    }
    match found {
        Ok(k) => {
            let sort_order = list[k].sort_order;
            let created_at = list[k].created_at.clone();
            let p = LlmProvider {
                id: id.to_owned(),
                name: input.name,
                provider: input.provider,
                model: input.model,
                api_key: input.api_key,
                base_url: input.base_url,
                proxy: input.proxy,
                max_tokens: input.max_tokens,
                temperature: input.temperature,
                extra_body: input.extra_body,
                is_default,
                is_vision: flag_of(input.is_vision),
                sort_order,
                created_at,
                updated_at: now.to_owned(),
            };
            list.set(k, p);
            proof {
                assert forall|i: int, j: int| 0 <= i < j < list@.len() implies (
                #[trigger] list@[i]).id@ != (#[trigger] list@[j]).id@ by {
                    assert(list@[i].id@ == ready[i].id@ && list@[j].id@ == ready[j].id@);
                }
            }
            Ok(k)
        },
        Err(e) => Err(e),
    }
}

/// Makes a model the default, and no other. Where there is no model with that id, there is no default
/// behind that.
pub fn set_default_provider<T>(list: &mut Vec<LlmProvider<T>>, id: &str) -> (r: Result<
    usize,
    String,
>)
    requires
        ids_differ(old(list)@),
    ensures
        final(list)@.len() == old(list)@.len(),
        match r {
            Ok(k) => k < final(list)@.len() && provider_from(old(list)@, id@, 0) == Some(k as int)
                && forall|j: int|
                0 <= j < final(list)@.len() ==> same_but_default(
                    #[trigger] final(list)@[j],
                    old(list)@[j],
                ) && final(list)@[j].is_default == (j == k),
            Err(e) => provider_from(old(list)@, id@, 0) is None && e@ == not_found(id@)
                && is_cleared(old(list)@, final(list)@),
        },
        one_default(final(list)@),
        ids_differ(final(list)@),
{
    let ghost start = list@;
    let found = get_provider(list, id);
    clear_default(list);
    let ghost ready = list@;
    proof {
        assert forall|i: int, j: int| 0 <= i < j < ready.len() implies (#[trigger] ready[i]).id@
            != (#[trigger] ready[j]).id@ by {
            assert(ready[i].id@ == start[i].id@ && ready[j].id@ == start[j].id@);
        }
    }
    match found {
        Ok(k) => {
            list[k].is_default = true;
            proof {
                assert forall|i: int, j: int| 0 <= i < j < list@.len() implies (
                #[trigger] list@[i]).id@ != (#[trigger] list@[j]).id@ by {
                    assert(list@[i].id@ == ready[i].id@ && list@[j].id@ == ready[j].id@);
                }
            }
            Ok(k)
        },
        Err(e) => Err(e),
    }
}

/// Takes a model out, where it is there.
pub fn delete_provider<T>(list: &mut Vec<LlmProvider<T>>, id: &str)
    requires
        ids_differ(old(list)@),
    ensures
        match provider_from(old(list)@, id@, 0) {
            Some(k) => final(list)@ == old(list)@.remove(k),
            None => final(list)@ == old(list)@,
        },
        one_default(old(list)@) ==> one_default(final(list)@),
        ids_differ(final(list)@),
{
    let ghost before = list@;
    if let Ok(at) = get_provider(list, id) {
        let _ = list.remove(at);
        proof {
            let after = list@;
            assert(after =~= before.remove(at as int));
            assert forall|i: int, j: int| 0 <= i < j < after.len() implies (#[trigger] after[i]).id@
                != (#[trigger] after[j]).id@ by {
                let a = if i < at {
                    i
                } else {
                    i + 1
                };
                let b = if j < at {
                    j
                } else {
                    j + 1
                };
                assert(after[i] == before[a] && after[j] == before[b]);
                assert(before[a].id@ != before[b].id@);
            }
            if one_default(before) {
                assert forall|i: int, j: int|
                    0 <= i < after.len() && 0 <= j < after.len() && (#[trigger] after[i]).is_default
                        && (#[trigger] after[j]).is_default implies i == j by {
                    let a = if i < at {
                        i
                    } else {
                        i + 1
                    };
                    let b = if j < at {
                        j
                    } else {
                        j + 1
                    };
                    assert(after[i] == before[a] && after[j] == before[b]);
                }
            }
        }
    }
}

/// The default that the settings name once a model is deleted.
pub fn default_id_after(current: Option<String>, deleted: &str) -> (r: Option<String>)
    ensures
        opt_text(r) == (if opt_text(current) == Some(deleted@) {
            None
        } else {
            opt_text(current)
        }),
{
    match current {
        Some(c) => if same(c.as_str(), deleted) {
            None
        } else {
            Some(c)
        },
        None => None,
    }
}

/// The place of the first default from `i` on.
pub open spec fn default_from<T>(list: Seq<LlmProvider<T>>, i: int) -> Option<int>
    decreases list.len() - i,
{
    if i < 0 || i >= list.len() {
        None
    } else if list[i].is_default {
        Some(i)
    } else {
        default_from(list, i + 1)
    }
}

/// The place of the model that comes first among the first `n`, for `n` above 0.
pub open spec fn first_among<T>(list: Seq<LlmProvider<T>>, n: int) -> int
    decreases n,
{
    if n <= 1 || n > list.len() {
        0
    } else {
        let before = first_among(list, n - 1);
        if comes_before(list[n - 1], list[before]) {
            n - 1
        } else {
            before
        }
    }
}

/// The model that is used where none is named: the default, else the one that comes first.
pub fn get_default_provider<T>(list: &Vec<LlmProvider<T>>) -> (r: Option<usize>)
    ensures
        match r {
            Some(k) => k < list.len() && (default_from(list@, 0) == Some(k as int) || (default_from(
                list@,
                0,
            ) is None && k == first_among(list@, list@.len() as int))),
            None => list.len() == 0,
        },
{
    let mut i: usize = 0;
    while i < list.len()
        invariant
            i <= list.len(),
            default_from(list@, 0) == default_from(list@, i as int),
        decreases list.len() - i,
    {
        if list[i].is_default {
            return Some(i);
        }
        i += 1;
    }
    if list.len() == 0 {
        return None;
    }
    let mut best: usize = 0;
    let mut n: usize = 1;
    while n < list.len()
        invariant
            1 <= n <= list.len(),
            best < list.len(),
            best == first_among(list@, n as int),
        decreases list.len() - n,
    {
        if earlier(&list[n], &list[best]) {
            best = n;
        }
        n += 1;
    }
    Some(best)
}

/// Whether `r` is what a model says is needed to talk to it; additions that are no JSON are left out.
pub open spec fn is_block<T>(p: LlmProvider<T>, r: LlmConfigBlock<T>) -> bool {
    &&& r.provider@ == p.provider@
    &&& r.model@ == p.model@
    &&& r.api_key@ == p.api_key@
    &&& r.base_url@ == p.base_url@
    &&& opt_text(r.proxy) == opt_text(p.proxy)
    &&& r.max_tokens == p.max_tokens
    &&& r.temperature == p.temperature
    &&& match p.extra_body {
        Some(s) => match json_value(s@) {
            Ok(v) => r.extra_body is Some && r.extra_body->0@ == v,
            Err(_) => r.extra_body is None,
        },
        None => r.extra_body is None,
    }
}

/// What is needed to talk to a language model.
pub fn provider_to_block<T: Copy>(p: &LlmProvider<T>) -> (r: LlmConfigBlock<T>)
    ensures
        is_block(*p, r),
{
    let extra_body = match &p.extra_body {
        Some(s) => match parse_json(s.as_str()) {
            Ok(v) => Some(v),
            Err(_) => None,
        },
        None => None,
    };
    LlmConfigBlock {
        provider: p.provider.clone(),
        model: p.model.clone(),
        api_key: p.api_key.clone(),
        base_url: p.base_url.clone(),
        proxy: copy_opt(&p.proxy),
        max_tokens: p.max_tokens,
        temperature: p.temperature,
        extra_body,
    }
}

/// What is needed to talk to the model with an id.
pub fn resolve_block<T: Copy>(list: &Vec<LlmProvider<T>>, id: &str) -> (r: Result<
    LlmConfigBlock<T>,
    String,
>)
    ensures
        match provider_from(list@, id@, 0) {
            Some(k) => r is Ok && is_block(list@[k], r->Ok_0),
            None => r is Err && r->Err_0@ == not_found(id@),
        },
{
    match get_provider(list, id) {
        Ok(k) => Ok(provider_to_block(&list[k])),
        Err(e) => Err(e),
    }
}

/// What is needed to talk to the model that is used where none is named.
pub fn load_default_llm_config<T: Copy>(list: &Vec<LlmProvider<T>>) -> (r: Result<
    LlmConfigBlock<T>,
    String,
>)
    ensures
        if list.len() == 0 {
            r is Err && r->Err_0@ == "no LLM provider configured"@
        } else {
            r is Ok && is_block(
                match default_from(list@, 0) {
                    Some(k) => list@[k],
                    None => list@[first_among(list@, list@.len() as int)],
                },
                r->Ok_0,
            )
        },
{
    match get_default_provider(list) {
        Some(k) => Ok(provider_to_block(&list[k])),
        None => Err("no LLM provider configured".to_owned()),
    }
}

// ---------------------------------------------------------------------------------------------
// Older settings
// ---------------------------------------------------------------------------------------------
/// Where a service is reached unless a user says otherwise.
pub open spec fn usual_url(p: Seq<char>) -> Seq<char> {
    if p == "openai"@ {
        "https://api.openai.com/v1"@
    } else if p == "anthropic"@ {
        "https://api.anthropic.com"@
    } else if p == "deepseek"@ {
        "https://api.deepseek.com/v1"@
    } else if p == "siliconflow"@ {
        "https://api.siliconflow.cn/v1"@
    } else if p == "ollama"@ {
        "http://localhost:11434/v1"@
    } else if p == "qwen"@ {
        "https://dashscope.aliyuncs.com/compatible-mode/v1"@
    } else if p == "zhipu"@ {
        "https://open.bigmodel.cn/api/paas/v4"@
    } else if p == "kimi"@ {
        "https://api.moonshot.cn/v1"@
    } else if p == "gemini"@ {
        "https://generativelanguage.googleapis.com/v1beta/openai"@
    } else {
        "https://api.deepseek.com/v1"@
    }
}

/// The model of a service unless a user says otherwise. That of Anthropic is named by the caller.
pub open spec fn usual_model(p: Seq<char>, anthropic_model: Seq<char>) -> Seq<char> {
    if p == "openai"@ {
        "gpt-4o"@
    } else if p == "anthropic"@ {
        anthropic_model
    } else if p == "deepseek"@ {
        "deepseek-v4-flash"@
    } else if p == "siliconflow"@ {
        "deepseek-ai/DeepSeek-V3"@
    } else if p == "ollama"@ {
        "llama3.2"@
    } else if p == "qwen"@ {
        "qwen-max"@
    } else if p == "zhipu"@ {
        "glm-4-plus"@
    } else if p == "kimi"@ {
        "moonshot-v1-auto"@
    } else if p == "gemini"@ {
        "gemini-2.5-pro"@
    } else {
        "deepseek-v4-flash"@
    }
}

/// Where a service is reached unless a user says otherwise.
pub fn default_base_url(provider: &str) -> (r: String)
    ensures
        r@ == usual_url(provider@),
{
    if same(provider, "openai") {
        "https://api.openai.com/v1".to_owned()
    } else if same(provider, "anthropic") {
        "https://api.anthropic.com".to_owned()
    } else if same(provider, "deepseek") {
        "https://api.deepseek.com/v1".to_owned()
    } else if same(provider, "siliconflow") {
        "https://api.siliconflow.cn/v1".to_owned()
    } else if same(provider, "ollama") {
        "http://localhost:11434/v1".to_owned()
    } else if same(provider, "qwen") {
        "https://dashscope.aliyuncs.com/compatible-mode/v1".to_owned()
    } else if same(provider, "zhipu") {
        "https://open.bigmodel.cn/api/paas/v4".to_owned()
    } else if same(provider, "kimi") {
        "https://api.moonshot.cn/v1".to_owned()
    } else if same(provider, "gemini") {
        "https://generativelanguage.googleapis.com/v1beta/openai".to_owned()
    } else {
        "https://api.deepseek.com/v1".to_owned()
    }
}

/// The model of a service unless a user says otherwise. That of Anthropic is named by the caller.
pub fn default_model(provider: &str, anthropic_model: &str) -> (r: String)
    ensures
        r@ == usual_model(provider@, anthropic_model@),
{
    if same(provider, "openai") {
        "gpt-4o".to_owned()
    } else if same(provider, "anthropic") {
        anthropic_model.to_owned()
    } else if same(provider, "deepseek") {
        "deepseek-v4-flash".to_owned()
    } else if same(provider, "siliconflow") {
        "deepseek-ai/DeepSeek-V3".to_owned()
    } else if same(provider, "ollama") {
        "llama3.2".to_owned()
    } else if same(provider, "qwen") {
        "qwen-max".to_owned()
    } else if same(provider, "zhipu") {
        "glm-4-plus".to_owned()
    } else if same(provider, "kimi") {
        "moonshot-v1-auto".to_owned()
    } else if same(provider, "gemini") {
        "gemini-2.5-pro".to_owned()
    } else {
        "deepseek-v4-flash".to_owned()
    }
}

/// An older setting of a service.
pub open spec fn older(rows: Seq<Setting>, provider: Seq<char>, name: Seq<char>) -> Option<
    Seq<char>,
> {
    setting_of(rows, "llm."@ + provider + "."@ + name)
}

/// A text, or another where there is none.
pub open spec fn else_text(o: Option<Seq<char>>, other: Seq<char>) -> Seq<char> {
    match o {
        Some(s) => s,
        None => other,
    }
}

/// The most tokens that an older setting allows: 4096 where it says no number.
pub open spec fn older_tokens(o: Option<Seq<char>>) -> int {
    match o {
        Some(s) => match parse_signed(s, i32::MIN as int, i32::MAX as int) {
            Some(n) => n,
            None => 4096,
        },
        None => 4096,
    }
}

/// Whether a model is the one that older settings describe.
pub open spec fn is_seed<T>(
    rows: Seq<Setting>,
    p: LlmProvider<T>,
    temperature: T,
    anthropic_model: Seq<char>,
    id: Seq<char>,
    now: Seq<char>,
) -> bool {
    let name = lowercase_of(setting_of(rows, "llm.provider"@)->0);
    &&& p.id@ == id && p.name@ == name + " (迁移)"@ && p.provider@ == name
    &&& p.model@ == else_text(older(rows, name, "model"@), usual_model(name, anthropic_model))
    &&& p.api_key@ == else_text(older(rows, name, "api_key"@), Seq::empty())
    &&& p.base_url@ == else_text(older(rows, name, "base_url"@), usual_url(name))
    &&& opt_text(p.proxy) == setting_of(rows, "llm.proxy"@)
    &&& p.max_tokens is Some && p.max_tokens->0 == older_tokens(older(rows, name, "max_tokens"@))
    &&& p.temperature == Some(temperature)
    &&& p.extra_body is None && p.is_default && !p.is_vision && p.sort_order == 0
    &&& p.created_at@ == now && p.updated_at@ == now
}

fn older_setting(rows: &Vec<Setting>, provider: &str, name: &str) -> (r: Option<String>)
    ensures
        opt_text(r) == older(rows@, provider@, name@),
{
    let mut key = concat3("llm.", provider, ".");
    key.append(name);
    get_setting(rows, key.as_str())
}

/// The key of the older setting that says how warm the answers of a service are.
pub fn temperature_key(rows: &Vec<Setting>) -> (r: Option<String>)
    ensures
        opt_text(r) == (match setting_of(rows@, "llm.provider"@) {
            Some(p) => Some("llm."@ + lowercase_of(p) + "."@ + "temperature"@),
            None => None,
        }),
{
    match get_setting(rows, "llm.provider") {
        Some(p) => {
            let mut key = concat3("llm.", to_lowercase(p.as_str()).as_str(), ".");
            key.append("temperature");
            Some(key)
        },
        None => None,
    }
}

/// Puts the model that older settings describe into an empty list. A list that holds one already and
/// a user who never set one up are left alone.
pub fn ensure_seeded<T>(
    list: &mut Vec<LlmProvider<T>>,
    rows: &Vec<Setting>,
    temperature: T,
    anthropic_model: &str,
    id: &str,
    now: &str,
)
    ensures
        if old(list)@.len() > 0 || setting_of(rows@, "llm.provider"@) is None {
            final(list)@ == old(list)@
        } else {
            final(list)@.len() == 1 && is_seed(
                rows@,
                final(list)@[0],
                temperature,
                anthropic_model@,
                id@,
                now@,
            )
        },
{
    if list.len() > 0 {
        return;
    }
    let provider = match get_setting(rows, "llm.provider") {
        Some(p) => to_lowercase(p.as_str()),
        None => {
            return;
        },
    };
    let api_key = match older_setting(rows, provider.as_str(), "api_key") {
        Some(s) => s,
        None => String::new(),
    };
    let base_url = match older_setting(rows, provider.as_str(), "base_url") {
        Some(s) => s,
        None => default_base_url(provider.as_str()),
    };
    let model = match older_setting(rows, provider.as_str(), "model") {
        Some(s) => s,
        None => default_model(provider.as_str(), anthropic_model),
    };
    let proxy = get_setting(rows, "llm.proxy");
    let max_tokens: i32 = match older_setting(rows, provider.as_str(), "max_tokens") {
        Some(s) => match parse_i64_within(s.as_str(), i32::MIN as i64, i32::MAX as i64) {
            Some(n) => n as i32,
            None => 4096,
        },
        None => 4096,
    };
    list.push(
        LlmProvider {
            id: id.to_owned(),
            name: concat2(provider.as_str(), " (迁移)"),
            provider,
            model,
            api_key,
            base_url,
            proxy,
            max_tokens: Some(max_tokens),
            temperature: Some(temperature),
            extra_body: None,
            is_default: true,
            is_vision: false,
            sort_order: 0,
            created_at: now.to_owned(),
            updated_at: now.to_owned(),
        },
    );
}

} // verus!
