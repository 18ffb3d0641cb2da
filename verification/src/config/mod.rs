//! Reading, saving and persisting the UI-managed configuration.

pub mod types;
pub mod put;
pub mod apply;
pub mod project;
pub mod persist;
pub mod helpers;
pub mod db_overlay;

use vstd::prelude::*;
use crate::text::str_eq;
use self::types::{mask_spec, mask_string, ui_provider_views, UiConfig, UiConfigView, UiLlmConfig, UiLlmProviderView, UiLlmView};
use self::apply::mask_or_empty_spec;

verus! {

/// A submitted secret that means "keep the stored one": empty (the form's
/// "leave blank = unchanged") or the mask sentinel `GET /config` returned.
pub open spec fn blank_or_masked(key: Seq<char>) -> bool {
    key.len() == 0 || key == mask_spec()
}

/// A UI-supplied key means "keep the existing one" when it is empty or
/// carries the mask sentinel.
pub fn is_blank_or_masked(key: &str) -> (r: bool)
    ensures
        r == blank_or_masked(key@),
{
    proof {
        reveal_strlit("***");
        assert("***"@ =~= mask_spec());
    }
    key.unicode_len() == 0 || str_eq(key, "***")
}

/// A provider card with its key masked.
pub open spec fn masked_card(c: UiLlmProviderView) -> UiLlmProviderView {
    UiLlmProviderView { api_key: mask_or_empty_spec(c.api_key), ..c }
}

/// The projection with every live key replaced by the mask.
pub open spec fn masked_config(ui: UiConfigView) -> UiConfigView {
    UiConfigView {
        llm: masked_llm(ui.llm),
        gitlab: crate::config::types::UiGitLabView { api_token: mask_or_empty_spec(ui.gitlab.api_token), ..ui.gitlab },
        ..ui
    }
}

/// The llm section with every live key replaced by the mask.
pub open spec fn masked_llm(l: UiLlmView) -> UiLlmView {
    UiLlmView {
        openai_api_key: mask_or_empty_spec(l.openai_api_key),
        providers: l.providers.map_values(|c: UiLlmProviderView| masked_card(c)),
        ..l
    }
}

/// Replace the live LLM keys of an llm section (the scalar key and each
/// card's) with the mask; empty keys stay empty.
pub fn mask_llm_keys(llm: &mut UiLlmConfig)
    ensures
        final(llm)@ == masked_llm(old(llm)@),
{
    if !llm.openai_api_key.as_str().is_empty() {
        llm.openai_api_key = mask_string();
    } else {
        assert(llm.openai_api_key@ =~= Seq::<char>::empty());
    }
    let mut cards: Vec<crate::config::types::UiLlmProviderConfig> = Vec::new();
    std::mem::swap(&mut cards, &mut llm.providers);
    let ghost before = cards@;
    let mut i: usize = 0;
    while i < cards.len()
        invariant
            i <= cards@.len(),
            cards@.len() == before.len(),
            forall|k: int| 0 <= k < i ==> (#[trigger] cards@[k])@ == masked_card(before[k]@),
            forall|k: int| i <= k < before.len() ==> #[trigger] cards@[k] == before[k],
        decreases before.len() - i,
    {
        if !cards[i].api_key.as_str().is_empty() {
            let mut card = cards[i].copy();
            card.api_key = mask_string();
            cards.set(i, card);
        } else {
            proof {
                assert(before[i as int]@.api_key =~= Seq::<char>::empty());
                assert(masked_card(before[i as int]@) == before[i as int]@);
            }
        }
        i = i + 1;
    }
    std::mem::swap(&mut cards, &mut llm.providers);
    proof {
        assert(ui_provider_views(llm.providers@) =~= ui_provider_views(before).map_values(
            |c: UiLlmProviderView| masked_card(c),
        ));
    }
}

/// Replace live API keys (LLM keys and the GitLab token) with the mask
/// before the projection is served: a configured key comes back as `***`.
pub fn mask_secrets(ui: &mut UiConfig)
    ensures
        final(ui)@ == masked_config(old(ui)@),
{
    mask_llm_keys(&mut ui.llm);
    if !ui.gitlab.api_token.as_str().is_empty() {
        ui.gitlab.api_token = mask_string();
    } else {
        assert(ui.gitlab.api_token@ =~= Seq::<char>::empty());
    }
}

/// The projection `GET /config` serves: a token configured outside the UI
/// (present at runtime only) shows as the mask, and every live key is
/// masked.
pub fn config_for_get(ui: &UiConfig, runtime_has_token: bool) -> (r: UiConfig)
    ensures
        r@ == masked_config(if runtime_has_token && ui@.gitlab.api_token.len() == 0 {
            UiConfigView { gitlab: crate::config::types::UiGitLabView { api_token: mask_spec(), ..ui@.gitlab }, ..ui@ }
        } else {
            ui@
        }),
{
    let mut out = ui.copy();
    if runtime_has_token && out.gitlab.api_token.as_str().is_empty() {
        out.gitlab.api_token = mask_string();
    }
    mask_secrets(&mut out);
    out
}

/// The served projection never carries a live key: every LLM key and the
/// GitLab token in it is either empty or the mask.
pub proof fn law_masked_projection_holds_no_live_key(ui: UiConfigView)
    ensures
        ({
            let m = masked_config(ui);
            &&& (m.llm.openai_api_key.len() == 0 || m.llm.openai_api_key == mask_spec())
            &&& (m.gitlab.api_token.len() == 0 || m.gitlab.api_token == mask_spec())
            &&& forall|i: int| 0 <= i < m.llm.providers.len() ==> (#[trigger] m.llm.providers[i]).api_key.len() == 0
                || m.llm.providers[i].api_key == mask_spec()
        }),
{
}

} // verus!
