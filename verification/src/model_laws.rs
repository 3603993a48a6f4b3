//! Which language model stands in where none is the default, and what becomes of older settings.
use vstd::prelude::*;
use vstd::string::*;

use crate::llm_provider_service::{
    comes_before, first_among, is_seed, usual_model, usual_url, LlmProvider,
};
use crate::models::Setting;
use crate::order::lemma_text_before;
use crate::settings_service::setting_of;
use crate::text::{lowercase_of, opt_text};

verus! {

/// The model that stands in for a missing default has the lowest number, and among those with that
/// number it came first.
pub proof fn law_lowest_number_stands_in<T>(list: Seq<LlmProvider<T>>, n: int, j: int)
    requires
        0 < n <= list.len(),
        0 <= j < n,
    ensures
        0 <= first_among(list, n) < n,
        list[first_among(list, n)].sort_order <= list[j].sort_order,
        !comes_before(list[j], list[first_among(list, n)]),
    decreases n,
{
    if n > 1 {
        let before = first_among(list, n - 1);
        law_lowest_number_stands_in(list, n - 1, if j < n - 1 {
            j
        } else {
            0
        });
        let x = list[n - 1];
        let b = list[before];
        let y = list[j];
        lemma_text_before(x.created_at@, b.created_at@, x.created_at@);
        lemma_text_before(x.created_at@, x.created_at@, x.created_at@);
        lemma_text_before(y.created_at@, b.created_at@, y.created_at@);
        lemma_text_before(y.created_at@, x.created_at@, b.created_at@);
        lemma_text_before(y.created_at@, b.created_at@, x.created_at@);
    } else {
        let y = list[j];
        lemma_text_before(y.created_at@, y.created_at@, y.created_at@);
    }
}

/// What the older settings say of a service goes into the model that is made of them: where a setting
/// is there, the model has its value.
pub proof fn law_older_settings_are_taken_over<T>(
    rows: Seq<Setting>,
    p: LlmProvider<T>,
    temperature: T,
    anthropic_model: Seq<char>,
    id: Seq<char>,
    now: Seq<char>,
    value: Seq<char>,
)
    requires
        setting_of(rows, "llm.provider"@) is Some,
        is_seed(rows, p, temperature, anthropic_model, id, now),
    ensures
        p.provider@ == lowercase_of(setting_of(rows, "llm.provider"@)->0),
        setting_of(rows, "llm."@ + p.provider@ + "."@ + "model"@) == Some(value) ==> p.model@
            == value,
        setting_of(rows, "llm."@ + p.provider@ + "."@ + "api_key"@) == Some(value) ==> p.api_key@
            == value,
        setting_of(rows, "llm."@ + p.provider@ + "."@ + "base_url"@) == Some(value) ==> p.base_url@
            == value,
        setting_of(rows, "llm."@ + p.provider@ + "."@ + "model"@) is None ==> p.model@
            == usual_model(p.provider@, anthropic_model),
        setting_of(rows, "llm."@ + p.provider@ + "."@ + "api_key"@) is None ==> p.api_key@.len()
            == 0,
        setting_of(rows, "llm."@ + p.provider@ + "."@ + "base_url"@) is None ==> p.base_url@
            == usual_url(p.provider@),
        setting_of(rows, "llm."@ + p.provider@ + "."@ + "max_tokens"@) is None ==> p.max_tokens
            == Some(4096i32),
        opt_text(p.proxy) == setting_of(rows, "llm.proxy"@),
        p.is_default,
{
}

} // verus!
