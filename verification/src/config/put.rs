//! `PUT /config`: resolving a submitted UI configuration against the stored
//! one — masked-secret keep, provider-card identity, primary normalisation.

use vstd::prelude::*;
use crate::models::{
    llm_views, platform_views, string_views, GitPlatformConfig, GitPlatformView, LLMConfig,
    LlmConfigView, Temperature,
};
use crate::text::{
    ascii_lower_spec, copy_str, eq_ignore_ascii_case_spec, str_eq, to_ascii_lower, trim, trim_end_char_spec, trim_spec,
    trim_url,
};
use super::blank_or_masked;
use super::is_blank_or_masked;
use super::types::{
    clear_sentinel_spec, mask_spec, mask_string, ui_platform_views, ui_provider_views, UiGitPlatformConfig,
    UiGitPlatformView, UiLlmConfig, UiLlmProviderConfig, UiLlmProviderView, UiLlmView,
    CLEAR_SECRET_SENTINEL,
};

verus! {

/// `"openai"`, the label of the legacy scalar primary.
pub open spec fn openai_spec() -> Seq<char> {
    "openai"@
}

fn openai_string() -> (s: String)
    ensures
        s@ == openai_spec(),
{
    String::from_str("openai")
}

fn is_openai(s: &str) -> (r: bool)
    ensures
        r == (s@ == openai_spec()),
{
    str_eq(s, "openai")
}

// ── generic first-match / count over sequences ──

/// First index `>= i` whose element satisfies `pred`.
pub open spec fn first_from<A>(s: Seq<A>, pred: spec_fn(A) -> bool, i: int) -> Option<int>
    decreases s.len() - i,
{
    if i < 0 || i >= s.len() {
        None
    } else if pred(s[i]) {
        Some(i)
    } else {
        first_from(s, pred, i + 1)
    }
}

/// Number of elements at index `>= i` satisfying `pred`.
pub open spec fn count_from<A>(s: Seq<A>, pred: spec_fn(A) -> bool, i: int) -> nat
    decreases s.len() - i,
{
    if i < 0 || i >= s.len() {
        0
    } else {
        (if pred(s[i]) { 1nat } else { 0nat }) + count_from(s, pred, i + 1)
    }
}

proof fn lemma_first_from_found<A>(s: Seq<A>, pred: spec_fn(A) -> bool, i: int)
    requires
        0 <= i <= s.len(),
    ensures
        match first_from(s, pred, i) {
            Some(j) => i <= j < s.len() && pred(s[j]) && forall|k: int| i <= k < j ==> !pred(#[trigger] s[k]),
            None => forall|k: int| i <= k < s.len() ==> !pred(#[trigger] s[k]),
        },
    decreases s.len() - i,
{
    if i < s.len() && !pred(s[i]) {
        lemma_first_from_found(s, pred, i + 1);
    }
}

// ── provider-card identity ──

/// The `(provider, api_base, model)` triple of a stored card.
pub open spec fn triple_pred(provider: Seq<char>, api_base: Seq<char>, model: Seq<char>) -> spec_fn(
    LlmConfigView,
) -> bool {
    |c: LlmConfigView| c.provider == provider && c.api_base == api_base && c.model == model
}

/// Cards named `provider`.
pub open spec fn name_pred(provider: Seq<char>) -> spec_fn(LlmConfigView) -> bool {
    |c: LlmConfigView| c.provider == provider
}

/// Which stored card a submission is about (an index into `stored`):
/// 1. the card at the submission's own index, when its triple matches;
/// 2. otherwise the unique card with the triple;
/// 3. otherwise none (no match, or several indistinguishable ones).
pub open spec fn stored_for(
    stored: Seq<LlmConfigView>,
    idx: Option<int>,
    provider: Seq<char>,
    api_base: Seq<char>,
    model: Seq<char>,
) -> Option<int> {
    let pred = triple_pred(provider, api_base, model);
    if idx is Some && 0 <= idx->0 < stored.len() && pred(stored[idx->0]) {
        idx
    } else if count_from(stored, pred, 0) == 1 {
        first_from(stored, pred, 0)
    } else {
        None
    }
}

/// Index of the first element of `stored` satisfying `pred`, with its count.
fn scan_llm(stored: &Vec<LLMConfig>, provider: &str, api_base: &str, model: &str, by_name_only: bool) -> (r: (
    Option<usize>,
    usize,
))
    ensures
        ({
            let pred = if by_name_only {
                name_pred(provider@)
            } else {
                triple_pred(provider@, api_base@, model@)
            };
            &&& r.0 matches Some(j) ==> first_from(llm_views(stored@), pred, 0) == Some(j as int)
            &&& r.0 is None ==> first_from(llm_views(stored@), pred, 0) is None
            &&& r.1 == count_from(llm_views(stored@), pred, 0) || (r.1 >= 2 && count_from(
                llm_views(stored@),
                pred,
                0,
            ) >= 2)
        }),
{
    let ghost s = llm_views(stored@);
    let ghost pred = if by_name_only {
        name_pred(provider@)
    } else {
        triple_pred(provider@, api_base@, model@)
    };
    let mut first: Option<usize> = None;
    let mut count: usize = 0;
    let mut i: usize = stored.len();
    while i > 0
        invariant
            s == llm_views(stored@),
            i <= stored@.len(),
            pred == (if by_name_only {
                name_pred(provider@)
            } else {
                triple_pred(provider@, api_base@, model@)
            }),
            first matches Some(j) ==> first_from(s, pred, i as int) == Some(j as int),
            first is None ==> first_from(s, pred, i as int) is None,
            count <= 2,
            count == count_from(s, pred, i as int) || (count == 2 && count_from(s, pred, i as int)
                >= 2),
        decreases i,
    {
        i = i - 1;
        let c = &stored[i];
        let hit = if by_name_only {
            str_eq(c.provider.as_str(), provider)
        } else {
            str_eq(c.provider.as_str(), provider) && str_eq(c.api_base.as_str(), api_base) && str_eq(
                c.model.as_str(),
                model,
            )
        };
        assert(s[i as int] == stored@[i as int]@);
        assert(hit == pred(s[i as int]));
        if hit {
            first = Some(i);
            if count < 2 {
                count = count + 1;
            }
        }
    }
    (first, count)
}

/// Executable [`stored_for`].
fn stored_for_exec(stored: &Vec<LLMConfig>, idx: Option<usize>, provider: &str, api_base: &str, model: &str) -> (r:
    Option<usize>)
    ensures
        r matches Some(j) ==> j < stored@.len(),
        (match r {
            Some(j) => Some(j as int),
            None => None,
        }) == stored_for(
            llm_views(stored@),
            match idx {
                Some(i) => Some(i as int),
                None => None,
            },
            provider@,
            api_base@,
            model@,
        ),
{
    let ghost s = llm_views(stored@);
    let ghost pred = triple_pred(provider@, api_base@, model@);
    if let Some(i) = idx {
        if i < stored.len() {
            let c = &stored[i];
            if str_eq(c.provider.as_str(), provider) && str_eq(c.api_base.as_str(), api_base)
                && str_eq(c.model.as_str(), model) {
                assert(s[i as int] == stored@[i as int]@);
                return Some(i);
            }
            assert(s[i as int] == stored@[i as int]@);
        }
    }
    let (first, count) = scan_llm(stored, provider, api_base, model, false);
    proof {
        lemma_first_from_found(s, pred, 0);
    }
    if count == 1 {
        first
    } else {
        None
    }
}


// ── the llm section ──

/// Cards that repeat the legacy scalar triple.
pub open spec fn legacy_triple_card(llm: UiLlmView) -> spec_fn(UiLlmProviderView) -> bool {
    |p: UiLlmProviderView|
        p.provider == openai_spec() && p.api_base_url == llm.api_base_url && p.default_model
            == llm.default_model
}

/// Some card repeats the legacy scalar triple.
pub open spec fn legacy_triple_present(llm: UiLlmView) -> bool {
    exists|i: int| 0 <= i < llm.providers.len() && (legacy_triple_card(llm))(#[trigger] llm.providers[i])
}

/// The card the legacy scalar section stands for: the first `openai` card
/// with the scalar triple, or — when no card has it — the first `openai` card.
pub open spec fn consumable(llm: UiLlmView) -> spec_fn(UiLlmProviderView) -> bool {
    |p: UiLlmProviderView|
        p.provider == openai_spec() && (!legacy_triple_present(llm) || (p.api_base_url
            == llm.api_base_url && p.default_model == llm.default_model))
}

pub open spec fn legacy_consumed(llm: UiLlmView) -> Option<int> {
    first_from(llm.providers, consumable(llm), 0)
}

/// The stored card the legacy scalars describe: the stored entry with the
/// scalar triple, else the unique stored `openai` card.
pub open spec fn legacy_ref(stored: Seq<LlmConfigView>, llm: UiLlmView) -> Option<int> {
    match stored_for(stored, None, openai_spec(), llm.api_base_url, llm.default_model) {
        Some(j) => Some(j),
        None => if count_from(stored, name_pred(openai_spec()), 0) == 1 {
            first_from(stored, name_pred(openai_spec()), 0)
        } else {
            None
        },
    }
}

/// The stored card at an optional index.
pub open spec fn opt_at(stored: Seq<LlmConfigView>, j: Option<int>) -> Option<LlmConfigView> {
    match j {
        Some(j) => Some(stored[j]),
        None => None,
    }
}

/// The key of an optional card, empty when there is none.
pub open spec fn key_of(c: Option<LlmConfigView>) -> Seq<char> {
    match c {
        Some(c) => c.api_key,
        None => Seq::empty(),
    }
}

/// The legacy scalar key after "blank or masked keeps the stored one".
pub open spec fn legacy_key(stored: Seq<LlmConfigView>, llm: UiLlmView) -> Seq<char> {
    if blank_or_masked(llm.openai_api_key) {
        key_of(opt_at(stored, legacy_ref(stored, llm)))
    } else {
        llm.openai_api_key
    }
}

/// The scalar mirror merely echoes the recorded (non-`openai`) primary's own
/// card, so it states nothing about an `openai` entry.
pub open spec fn mirror_is_echo(llm: UiLlmView) -> bool {
    let recorded = trim_spec(llm.primary_provider);
    &&& recorded.len() > 0
    &&& recorded != openai_spec()
    &&& exists|i: int|
        0 <= i < llm.providers.len() && (#[trigger] llm.providers[i]).provider == recorded
            && trim_spec(llm.providers[i].api_base_url) == trim_spec(llm.api_base_url) && trim_spec(
            llm.providers[i].default_model,
        ) == trim_spec(llm.default_model)
}

/// The legacy scalar section contributes the `openai` primary entry.
pub open spec fn legacy_applies(stored: Seq<LlmConfigView>, llm: UiLlmView, states_legacy: bool) -> bool {
    states_legacy && !mirror_is_echo(llm) && legacy_key(stored, llm).len() > 0
}

/// `disabled` after the keep rule: the submitted flag, else the kept card's.
pub open spec fn keep_disabled(submitted: Option<bool>, kept: Option<LlmConfigView>) -> bool {
    match submitted {
        Some(b) => b,
        None => match kept {
            Some(c) => c.disabled,
            None => false,
        },
    }
}

/// `disable_thinking` after the keep rule (tri-state).
pub open spec fn keep_thinking(submitted: Option<bool>, kept: Option<LlmConfigView>) -> Option<bool> {
    match submitted {
        Some(b) => Some(b),
        None => match kept {
            Some(c) => c.disable_thinking,
            None => None,
        },
    }
}

/// A submitted field, or the kept card's value when the field is blank.
pub open spec fn fill(submitted: Seq<char>, kept: Option<Seq<char>>) -> Seq<char> {
    if trim_spec(submitted).len() == 0 {
        match kept {
            Some(v) => v,
            None => Seq::empty(),
        }
    } else {
        submitted
    }
}

/// The entry the legacy scalar section contributes.
pub open spec fn legacy_entry(stored: Seq<LlmConfigView>, llm: UiLlmView) -> LlmConfigView {
    let r = opt_at(stored, legacy_ref(stored, llm));
    let consumed = legacy_consumed(llm);
    let sub_disabled = match consumed {
        Some(i) => llm.providers[i].disabled,
        None => None,
    };
    let sub_thinking = match consumed {
        Some(i) => llm.providers[i].disable_thinking,
        None => None,
    };
    LlmConfigView {
        provider: openai_spec(),
        model: fill(
            llm.default_model,
            match r {
                Some(c) => Some(c.model),
                None => None,
            },
        ),
        api_key: legacy_key(stored, llm),
        api_base: fill(
            llm.api_base_url,
            match r {
                Some(c) => Some(c.api_base),
                None => None,
            },
        ),
        max_tokens: llm.max_tokens,
        temperature: llm.temperature,
        disable_thinking: keep_thinking(sub_thinking, r),
        disabled: keep_disabled(sub_disabled, r),
    }
}

/// The stored card card `i` of the submission is about.
pub open spec fn card_kept(stored: Seq<LlmConfigView>, llm: UiLlmView, i: int) -> Option<LlmConfigView> {
    let p = llm.providers[i];
    opt_at(stored, stored_for(stored, Some(i), p.provider, p.api_base_url, p.default_model))
}

/// Card `i`'s key after "blank or masked keeps this card's stored key".
pub open spec fn card_key(stored: Seq<LlmConfigView>, llm: UiLlmView, i: int) -> Seq<char> {
    let p = llm.providers[i];
    if blank_or_masked(p.api_key) {
        key_of(card_kept(stored, llm, i))
    } else {
        p.api_key
    }
}

/// Card `i` is the one the legacy scalar entry already stands for.
pub open spec fn card_consumed(stored: Seq<LlmConfigView>, llm: UiLlmView, states_legacy: bool, i: int) -> bool {
    legacy_applies(stored, llm, states_legacy) && legacy_consumed(llm) == Some(i)
}

/// Card `i` contributes an entry of its own: it is named, not the legacy
/// entry's card, and resolves to a non-empty key.
pub open spec fn card_pushed(stored: Seq<LlmConfigView>, llm: UiLlmView, states_legacy: bool, i: int) -> bool {
    llm.providers[i].provider.len() > 0 && !card_consumed(stored, llm, states_legacy, i) && card_key(
        stored,
        llm,
        i,
    ).len() > 0
}

/// The entry card `i` contributes.
pub open spec fn card_entry(stored: Seq<LlmConfigView>, llm: UiLlmView, i: int) -> LlmConfigView {
    let p = llm.providers[i];
    let kept = card_kept(stored, llm, i);
    LlmConfigView {
        provider: p.provider,
        model: p.default_model,
        api_key: card_key(stored, llm, i),
        api_base: p.api_base_url,
        max_tokens: p.max_tokens,
        temperature: p.temperature,
        disable_thinking: keep_thinking(p.disable_thinking, kept),
        disabled: keep_disabled(p.disabled, kept),
    }
}

/// The entries cards `0..n` contribute, in card order.
pub open spec fn cards_prefix(stored: Seq<LlmConfigView>, llm: UiLlmView, states_legacy: bool, n: int) -> Seq<
    LlmConfigView,
>
    decreases n,
{
    if n <= 0 {
        Seq::empty()
    } else if card_pushed(stored, llm, states_legacy, n - 1) {
        cards_prefix(stored, llm, states_legacy, n - 1).push(card_entry(stored, llm, n - 1))
    } else {
        cards_prefix(stored, llm, states_legacy, n - 1)
    }
}

/// The provider set a submitted llm section resolves to: the legacy entry
/// (when the scalars speak for it) followed by every other card that
/// resolves to a key, in card order.
pub open spec fn resolved_set(stored: Seq<LlmConfigView>, llm: UiLlmView, states_legacy: bool) -> Seq<LlmConfigView> {
    let head = if legacy_applies(stored, llm, states_legacy) {
        seq![legacy_entry(stored, llm)]
    } else {
        Seq::empty()
    };
    head + cards_prefix(stored, llm, states_legacy, llm.providers.len() as int)
}

/// Card `i` is reported as configured (masked key) afterwards.
pub open spec fn card_key_present(stored: Seq<LlmConfigView>, llm: UiLlmView, states_legacy: bool, i: int) -> bool {
    llm.providers[i].provider.len() > 0 && (card_consumed(stored, llm, states_legacy, i) || card_key(
        stored,
        llm,
        i,
    ).len() > 0)
}

/// Card `i`'s resolved `disabled` flag.
pub open spec fn card_disabled(stored: Seq<LlmConfigView>, llm: UiLlmView, states_legacy: bool, i: int) -> bool {
    let p = llm.providers[i];
    if p.provider.len() == 0 {
        keep_disabled(p.disabled, None)
    } else if card_consumed(stored, llm, states_legacy, i) {
        legacy_entry(stored, llm).disabled
    } else {
        keep_disabled(p.disabled, card_kept(stored, llm, i))
    }
}

/// Card `i`'s resolved `disable_thinking`.
pub open spec fn card_thinking(stored: Seq<LlmConfigView>, llm: UiLlmView, states_legacy: bool, i: int) -> Option<
    bool,
> {
    let p = llm.providers[i];
    if p.provider.len() == 0 {
        keep_thinking(p.disable_thinking, None)
    } else if card_consumed(stored, llm, states_legacy, i) {
        legacy_entry(stored, llm).disable_thinking
    } else {
        keep_thinking(p.disable_thinking, card_kept(stored, llm, i))
    }
}

/// The mask for a configured secret, empty otherwise.
pub open spec fn masked_echo(present: bool) -> Seq<char> {
    if present {
        mask_spec()
    } else {
        Seq::empty()
    }
}

/// The provider the legacy scalar key field speaks for: the recorded
/// primary (trimmed), `openai` when none is recorded.
pub open spec fn scalar_provider(llm: UiLlmView) -> Seq<char> {
    if trim_spec(llm.primary_provider).len() == 0 {
        openai_spec()
    } else {
        trim_spec(llm.primary_provider)
    }
}

/// Some entry of `set` is named `name` and carries a key.
pub open spec fn has_stored_key(set: Seq<LlmConfigView>, name: Seq<char>) -> bool {
    exists|i: int| 0 <= i < set.len() && (#[trigger] set[i]).provider == name && set[i].api_key.len() > 0
}

/// Enabled entries.
pub open spec fn enabled_pred() -> spec_fn(LlmConfigView) -> bool {
    |c: LlmConfigView| !c.disabled
}

/// The recorded primary after a save: kept when it names an enabled entry
/// of the new set (or the set is empty), otherwise the first enabled entry's
/// name (empty when none is enabled).
pub open spec fn normalized_primary(set: Seq<LlmConfigView>, recorded: Seq<char>) -> Seq<char> {
    if set.len() > 0 && !(exists|i: int| 0 <= i < set.len() && !(#[trigger] set[i]).disabled && set[i].provider
        == recorded) {
        match first_from(set, enabled_pred(), 0) {
            Some(j) => set[j].provider,
            None => Seq::empty(),
        }
    } else {
        recorded
    }
}

/// The recorded primary after a save always names an enabled entry when
/// there is one: a recorded name of an enabled entry is kept, any other is
/// replaced by an enabled entry's name; with no enabled entry it is empty
/// (or kept, when the set is empty).
pub proof fn law_primary_names_an_enabled_entry(set: Seq<LlmConfigView>, recorded: Seq<char>)
    ensures
        (exists|i: int| 0 <= i < set.len() && !(#[trigger] set[i]).disabled && set[i].provider == recorded)
            ==> normalized_primary(set, recorded) == recorded,
        (exists|i: int| 0 <= i < set.len() && !(#[trigger] set[i]).disabled) ==> exists|i: int|
            0 <= i < set.len() && !(#[trigger] set[i]).disabled && set[i].provider == normalized_primary(set, recorded),
        set.len() > 0 && (forall|i: int| 0 <= i < set.len() ==> (#[trigger] set[i]).disabled)
            ==> normalized_primary(set, recorded).len() == 0,
{
    lemma_first_from_found(set, enabled_pred(), 0);
    if exists|i: int| 0 <= i < set.len() && !(#[trigger] set[i]).disabled {
        let i = choose|i: int| 0 <= i < set.len() && !(#[trigger] set[i]).disabled;
        assert((enabled_pred())(set[i]));
    }
    if set.len() > 0 && (forall|i: int| 0 <= i < set.len() ==> (#[trigger] set[i]).disabled) {
        if first_from(set, enabled_pred(), 0) is Some {
            let j = first_from(set, enabled_pred(), 0)->0;
            assert(set[j].disabled);
        }
    }
}

/// The provider card after the masked write-back.
pub open spec fn written_back_card(
    stored: Seq<LlmConfigView>,
    llm: UiLlmView,
    states_legacy: bool,
    i: int,
) -> UiLlmProviderView {
    UiLlmProviderView {
        api_key: masked_echo(card_key_present(stored, llm, states_legacy, i)),
        disabled: Some(card_disabled(stored, llm, states_legacy, i)),
        disable_thinking: card_thinking(stored, llm, states_legacy, i),
        ..llm.providers[i]
    }
}

/// The llm section after the masked write-back and primary normalisation.
pub open spec fn written_back_llm(stored: Seq<LlmConfigView>, llm: UiLlmView, states_legacy: bool) -> UiLlmView {
    let set = resolved_set(stored, llm, states_legacy);
    UiLlmView {
        openai_api_key: masked_echo(has_stored_key(set, scalar_provider(llm))),
        primary_provider: normalized_primary(set, llm.primary_provider),
        providers: Seq::new(
            llm.providers.len(),
            |i: int| written_back_card(stored, llm, states_legacy, i),
        ),
        ..llm
    }
}


// ── executable resolution ──

fn legacy_triple_present_exec(llm: &UiLlmConfig) -> (r: bool)
    ensures
        r == legacy_triple_present(llm@),
{
    let mut i: usize = 0;
    while i < llm.providers.len()
        invariant
            i <= llm.providers@.len(),
            forall|k: int| 0 <= k < i ==> !(legacy_triple_card(llm@))(#[trigger] llm@.providers[k]),
        decreases llm.providers@.len() - i,
    {
        let p = &llm.providers[i];
        assert(llm@.providers[i as int] == p@);
        if is_openai(p.provider.as_str()) && str_eq(p.api_base_url.as_str(), llm.api_base_url.as_str())
            && str_eq(p.default_model.as_str(), llm.default_model.as_str()) {
            return true;
        }
        i = i + 1;
    }
    false
}

fn legacy_consumed_exec(llm: &UiLlmConfig, present: bool) -> (r: Option<usize>)
    requires
        present == legacy_triple_present(llm@),
    ensures
        r matches Some(i) ==> i < llm.providers@.len(),
        (match r {
            Some(i) => Some(i as int),
            None => None,
        }) == legacy_consumed(llm@),
{
    let ghost pred = consumable(llm@);
    let mut i: usize = 0;
    while i < llm.providers.len()
        invariant
            i <= llm.providers@.len(),
            present == legacy_triple_present(llm@),
            pred == consumable(llm@),
            first_from(llm@.providers, pred, 0) == first_from(llm@.providers, pred, i as int),
        decreases llm.providers@.len() - i,
    {
        let p = &llm.providers[i];
        assert(llm@.providers[i as int] == p@);
        if is_openai(p.provider.as_str()) && (!present || (str_eq(
            p.api_base_url.as_str(),
            llm.api_base_url.as_str(),
        ) && str_eq(p.default_model.as_str(), llm.default_model.as_str()))) {
            return Some(i);
        }
        i = i + 1;
    }
    None
}

fn legacy_ref_exec(stored: &Vec<LLMConfig>, llm: &UiLlmConfig) -> (r: Option<usize>)
    ensures
        r matches Some(j) ==> j < stored@.len(),
        (match r {
            Some(j) => Some(j as int),
            None => None,
        }) == legacy_ref(llm_views(stored@), llm@),
{
    let openai = openai_string();
    let by_triple = stored_for_exec(stored, None, openai.as_str(), llm.api_base_url.as_str(), llm.default_model.as_str());
    match by_triple {
        Some(j) => Some(j),
        None => {
            let (first, count) = scan_llm(stored, openai.as_str(), "", "", true);
            proof {
                lemma_first_from_found(llm_views(stored@), name_pred(openai_spec()), 0);
            }
            if count == 1 {
                first
            } else {
                None
            }
        },
    }
}

fn mirror_is_echo_exec(llm: &UiLlmConfig) -> (r: bool)
    ensures
        r == mirror_is_echo(llm@),
{
    let recorded = trim(llm.primary_provider.as_str());
    if recorded.unicode_len() == 0 || is_openai(recorded.as_str()) {
        return false;
    }
    let base = trim(llm.api_base_url.as_str());
    let model = trim(llm.default_model.as_str());
    let mut i: usize = 0;
    while i < llm.providers.len()
        invariant
            i <= llm.providers@.len(),
            recorded@ == trim_spec(llm@.primary_provider),
            recorded@.len() > 0,
            recorded@ != openai_spec(),
            base@ == trim_spec(llm@.api_base_url),
            model@ == trim_spec(llm@.default_model),
            forall|k: int|
                0 <= k < i ==> !((#[trigger] llm@.providers[k]).provider == recorded@ && trim_spec(
                    llm@.providers[k].api_base_url,
                ) == base@ && trim_spec(llm@.providers[k].default_model) == model@),
        decreases llm.providers@.len() - i,
    {
        let p = &llm.providers[i];
        assert(llm@.providers[i as int] == p@);
        if str_eq(p.provider.as_str(), recorded.as_str()) {
            let pb = trim(p.api_base_url.as_str());
            let pm = trim(p.default_model.as_str());
            if str_eq(pb.as_str(), base.as_str()) && str_eq(pm.as_str(), model.as_str()) {
                assert(llm@.providers[i as int].provider == trim_spec(llm@.primary_provider));
                return true;
            }
        }
        i = i + 1;
    }
    false
}

/// `submitted`, or `kept` when `submitted` is blank.
fn fill_exec(submitted: &str, kept: Option<&String>) -> (r: String)
    ensures
        r@ == fill(
            submitted@,
            match kept {
                Some(k) => Some(k@),
                None => None,
            },
        ),
{
    let t = trim(submitted);
    if t.unicode_len() == 0 {
        match kept {
            Some(k) => copy_str(k.as_str()),
            None => String::new(),
        }
    } else {
        copy_str(submitted)
    }
}

fn keep_disabled_exec(submitted: Option<bool>, kept: Option<&LLMConfig>) -> (r: bool)
    ensures
        r == keep_disabled(
            submitted,
            match kept {
                Some(c) => Some(c@),
                None => None,
            },
        ),
{
    match submitted {
        Some(b) => b,
        None => match kept {
            Some(c) => c.disabled,
            None => false,
        },
    }
}

fn keep_thinking_exec(submitted: Option<bool>, kept: Option<&LLMConfig>) -> (r: Option<bool>)
    ensures
        r == keep_thinking(
            submitted,
            match kept {
                Some(c) => Some(c@),
                None => None,
            },
        ),
{
    match submitted {
        Some(b) => Some(b),
        None => match kept {
            Some(c) => c.disable_thinking,
            None => None,
        },
    }
}


/// Whether some entry of `set` is named `name` and carries a key.
fn has_stored_key_exec(set: &Vec<LLMConfig>, name: &str) -> (r: bool)
    ensures
        r == has_stored_key(llm_views(set@), name@),
{
    let mut i: usize = 0;
    while i < set.len()
        invariant
            i <= set@.len(),
            forall|k: int|
                0 <= k < i ==> !((#[trigger] llm_views(set@)[k]).provider == name@ && llm_views(
                    set@,
                )[k].api_key.len() > 0),
        decreases set@.len() - i,
    {
        assert(llm_views(set@)[i as int] == set@[i as int]@);
        if str_eq(set[i].provider.as_str(), name) && set[i].api_key.unicode_len() > 0 {
            return true;
        }
        i = i + 1;
    }
    false
}

/// The recorded primary after a save (see [`normalized_primary`]).
fn normalized_primary_exec(set: &Vec<LLMConfig>, recorded: &str) -> (r: String)
    ensures
        r@ == normalized_primary(llm_views(set@), recorded@),
{
    let ghost sv = llm_views(set@);
    if set.len() == 0 {
        return copy_str(recorded);
    }
    let mut i: usize = 0;
    while i < set.len()
        invariant
            sv == llm_views(set@),
            i <= set@.len(),
            forall|k: int| 0 <= k < i ==> !(!(#[trigger] sv[k]).disabled && sv[k].provider == recorded@),
        decreases set@.len() - i,
    {
        assert(sv[i as int] == set@[i as int]@);
        if !set[i].disabled && str_eq(set[i].provider.as_str(), recorded) {
            return copy_str(recorded);
        }
        i = i + 1;
    }
    let mut j: usize = 0;
    while j < set.len()
        invariant
            sv == llm_views(set@),
            j <= set@.len(),
            set@.len() > 0,
            forall|k: int| 0 <= k < set@.len() ==> !(!(#[trigger] sv[k]).disabled && sv[k].provider == recorded@),
            first_from(sv, enabled_pred(), 0) == first_from(sv, enabled_pred(), j as int),
        decreases set@.len() - j,
    {
        assert(sv[j as int] == set@[j as int]@);
        if !set[j].disabled {
            return copy_str(set[j].provider.as_str());
        }
        j = j + 1;
    }
    String::new()
}

proof fn lemma_views_push(v: Seq<LLMConfig>, c: LLMConfig)
    ensures
        llm_views(v.push(c)) == llm_views(v).push(c@),
{
    assert(llm_views(v.push(c)) =~= llm_views(v).push(c@));
}

/// Resolve a submitted llm section against the stored provider set.
///
/// `stored` is the effective runtime set: a blank or masked key resolves to
/// the stored key of the card the submission is about (by index and
/// `(provider, api_base, model)` triple, never by name alone).
/// `states_legacy` tells whether the request itself stated one of the
/// legacy scalar fields.
///
/// Returns the resolved provider set ([`resolved_set`]) and rewrites the llm
/// section into the projection `GET /config` serves afterwards
/// ([`written_back_llm`]): masked keys, resolved flags, normalised primary.
pub fn resolve_llm_section(llm: &mut UiLlmConfig, stored: &Vec<LLMConfig>, states_legacy: bool) -> (r: Vec<
    LLMConfig,
>)
    ensures
        llm_views(r@) == resolved_set(llm_views(stored@), old(llm)@, states_legacy),
        final(llm)@ == written_back_llm(llm_views(stored@), old(llm)@, states_legacy),
{
    let ghost s = llm_views(stored@);
    let ghost v = llm@;
    let present = legacy_triple_present_exec(llm);
    let consumed = legacy_consumed_exec(llm, present);
    let lref = legacy_ref_exec(stored, llm);
    let key: String = if is_blank_or_masked(llm.openai_api_key.as_str()) {
        match lref {
            Some(j) => {
                assert(s[j as int] == stored@[j as int]@);
                copy_str(stored[j].api_key.as_str())
            },
            None => String::new(),
        }
    } else {
        copy_str(llm.openai_api_key.as_str())
    };
    assert(key@ == legacy_key(s, v));
    let echo = mirror_is_echo_exec(llm);
    let applies = states_legacy && !echo && key.unicode_len() > 0;
    assert(applies == legacy_applies(s, v, states_legacy));
    let mut out: Vec<LLMConfig> = Vec::new();
    let mut legacy_disabled = false;
    let mut legacy_thinking: Option<bool> = None;
    if applies {
        let kept: Option<&LLMConfig> = match lref {
            Some(j) => Some(&stored[j]),
            None => None,
        };
        assert(kept matches Some(c) ==> c@ == s[lref->0 as int]);
        let sub_dis = match consumed {
            Some(i) => llm.providers[i].disabled,
            None => None,
        };
        let sub_th = match consumed {
            Some(i) => llm.providers[i].disable_thinking,
            None => None,
        };
        proof {
            if consumed is Some {
                assert(v.providers[consumed->0 as int] == llm.providers@[consumed->0 as int]@);
            }
        }
        let model = match kept {
            Some(c) => fill_exec(llm.default_model.as_str(), Some(&c.model)),
            None => fill_exec(llm.default_model.as_str(), None),
        };
        let api_base = match kept {
            Some(c) => fill_exec(llm.api_base_url.as_str(), Some(&c.api_base)),
            None => fill_exec(llm.api_base_url.as_str(), None),
        };
        legacy_disabled = keep_disabled_exec(sub_dis, kept);
        legacy_thinking = keep_thinking_exec(sub_th, kept);
        let entry = LLMConfig {
            provider: openai_string(),
            model,
            api_key: key,
            api_base,
            max_tokens: llm.max_tokens,
            temperature: llm.temperature,
            disable_thinking: legacy_thinking,
            disabled: legacy_disabled,
        };
        assert(entry@ == legacy_entry(s, v));
        out.push(entry);
        proof {
            lemma_views_push(Seq::empty(), out@[0]);
            assert(out@ =~= Seq::<LLMConfig>::empty().push(out@[0]));
        }
    }
    let ghost head: Seq<LlmConfigView> = if applies {
        seq![legacy_entry(s, v)]
    } else {
        Seq::empty()
    };
    assert(llm_views(out@) =~= head + cards_prefix(s, v, states_legacy, 0));
    let n = llm.providers.len();
    let mut flag_present: Vec<bool> = Vec::new();
    let mut flag_disabled: Vec<bool> = Vec::new();
    let mut flag_thinking: Vec<Option<bool>> = Vec::new();
    let mut i: usize = 0;
    while i < n
        invariant
            llm@ == v,
            s == llm_views(stored@),
            n == v.providers.len(),
            n == llm.providers@.len(),
            i <= n,
            applies == legacy_applies(s, v, states_legacy),
            (match consumed {
                Some(c) => Some(c as int),
                None => None,
            }) == legacy_consumed(v),
            applies ==> legacy_disabled == legacy_entry(s, v).disabled,
            applies ==> legacy_thinking == legacy_entry(s, v).disable_thinking,
            head == (if applies {
                seq![legacy_entry(s, v)]
            } else {
                Seq::<LlmConfigView>::empty()
            }),
            llm_views(out@) == head + cards_prefix(s, v, states_legacy, i as int),
            flag_present@.len() == i,
            flag_disabled@.len() == i,
            flag_thinking@.len() == i,
            forall|k: int| 0 <= k < i ==> #[trigger] flag_present@[k] == card_key_present(s, v, states_legacy, k),
            forall|k: int| 0 <= k < i ==> #[trigger] flag_disabled@[k] == card_disabled(s, v, states_legacy, k),
            forall|k: int| 0 <= k < i ==> #[trigger] flag_thinking@[k] == card_thinking(s, v, states_legacy, k),
        decreases n - i,
    {
        let p = &llm.providers[i];
        assert(v.providers[i as int] == p@);
        let is_consumed = applies && match consumed {
            Some(c) => c == i,
            None => false,
        };
        assert(is_consumed == card_consumed(s, v, states_legacy, i as int));
        if p.provider.unicode_len() == 0 {
            flag_present.push(false);
            flag_disabled.push(keep_disabled_exec(p.disabled, None));
            flag_thinking.push(keep_thinking_exec(p.disable_thinking, None));
        } else if is_consumed {
            flag_present.push(true);
            flag_disabled.push(legacy_disabled);
            flag_thinking.push(legacy_thinking);
        } else {
            let kj = stored_for_exec(
                stored,
                Some(i),
                p.provider.as_str(),
                p.api_base_url.as_str(),
                p.default_model.as_str(),
            );
            let kept: Option<&LLMConfig> = match kj {
                Some(j) => Some(&stored[j]),
                None => None,
            };
            proof {
                if kj is Some {
                    assert(s[kj->0 as int] == stored@[kj->0 as int]@);
                }
                assert((match kept {
                    Some(c) => Some(c@),
                    None => None,
                }) == card_kept(s, v, i as int));
            }
            let card_key_value: String = if is_blank_or_masked(p.api_key.as_str()) {
                match kept {
                    Some(c) => copy_str(c.api_key.as_str()),
                    None => String::new(),
                }
            } else {
                copy_str(p.api_key.as_str())
            };
            assert(card_key_value@ == card_key(s, v, i as int));
            let d = keep_disabled_exec(p.disabled, kept);
            let t = keep_thinking_exec(p.disable_thinking, kept);
            if card_key_value.unicode_len() == 0 {
                flag_present.push(false);
            } else {
                let entry = LLMConfig {
                    provider: copy_str(p.provider.as_str()),
                    model: copy_str(p.default_model.as_str()),
                    api_key: card_key_value,
                    api_base: copy_str(p.api_base_url.as_str()),
                    max_tokens: p.max_tokens,
                    temperature: p.temperature,
                    disable_thinking: t,
                    disabled: d,
                };
                assert(entry@ == card_entry(s, v, i as int));
                let ghost before = out@;
                out.push(entry);
                proof {
                    lemma_views_push(before, entry);
                }
                flag_present.push(true);
            }
            flag_disabled.push(d);
            flag_thinking.push(t);
        }
        proof {
            assert(cards_prefix(s, v, states_legacy, i + 1) == if card_pushed(s, v, states_legacy, i as int) {
                cards_prefix(s, v, states_legacy, i as int).push(card_entry(s, v, i as int))
            } else {
                cards_prefix(s, v, states_legacy, i as int)
            });
            assert(llm_views(out@) =~= head + cards_prefix(s, v, states_legacy, i + 1));
        }
        i = i + 1;
    }
    assert(llm_views(out@) == resolved_set(s, v, states_legacy));
    // masked write-back of the scalar key: keyed off the effective primary
    let recorded = trim(llm.primary_provider.as_str());
    let scalar = if recorded.unicode_len() == 0 {
        openai_string()
    } else {
        recorded
    };
    assert(scalar@ == scalar_provider(v));
    let has_key = has_stored_key_exec(&out, scalar.as_str());
    llm.openai_api_key = if has_key {
        mask_string()
    } else {
        String::new()
    };
    // masked write-back of every card
    let mut j: usize = 0;
    while j < n
        invariant
            n == llm.providers@.len(),
            n == v.providers.len(),
            j <= n,
            llm@.primary_provider == v.primary_provider,
            llm@.openai_api_key == masked_echo(has_stored_key(llm_views(out@), scalar_provider(v))),
            llm@.api_base_url == v.api_base_url,
            llm@.default_model == v.default_model,
            llm@.max_tokens == v.max_tokens,
            llm@.temperature == v.temperature,
            llm@.timeout_seconds == v.timeout_seconds,
            llm@.retry_attempts == v.retry_attempts,
            flag_present@.len() == n,
            flag_disabled@.len() == n,
            flag_thinking@.len() == n,
            forall|k: int| 0 <= k < n ==> #[trigger] flag_present@[k] == card_key_present(s, v, states_legacy, k),
            forall|k: int| 0 <= k < n ==> #[trigger] flag_disabled@[k] == card_disabled(s, v, states_legacy, k),
            forall|k: int| 0 <= k < n ==> #[trigger] flag_thinking@[k] == card_thinking(s, v, states_legacy, k),
            forall|k: int| 0 <= k < j ==> (#[trigger] llm.providers@[k])@ == written_back_card(s, v, states_legacy, k),
            forall|k: int| j <= k < n ==> (#[trigger] llm.providers@[k])@ == v.providers[k],
        decreases n - j,
    {
        let c = &llm.providers[j];
        let card = UiLlmProviderConfig {
            provider: copy_str(c.provider.as_str()),
            api_key: if flag_present[j] {
                mask_string()
            } else {
                String::new()
            },
            api_base_url: copy_str(c.api_base_url.as_str()),
            default_model: copy_str(c.default_model.as_str()),
            max_tokens: c.max_tokens,
            temperature: c.temperature,
            timeout_seconds: c.timeout_seconds,
            retry_attempts: c.retry_attempts,
            disabled: Some(flag_disabled[j]),
            disable_thinking: flag_thinking[j],
        };
        assert(card@ == written_back_card(s, v, states_legacy, j as int));
        llm.providers.set(j, card);
        j = j + 1;
    }
    let primary = normalized_primary_exec(&out, llm.primary_provider.as_str());
    llm.primary_provider = primary;
    proof {
        let w = written_back_llm(s, v, states_legacy);
        assert(ui_provider_views(llm.providers@) =~= w.providers);
        assert(llm@ == w);
    }
    out
}


/// Whether card `p` of a submission is the page's echo of stored card `c`:
/// the same provider, base URL and model, token limit and temperature, the
/// key masked or left blank, and the flags either left out or as stored.
pub open spec fn echoes(p: UiLlmProviderView, c: LlmConfigView) -> bool {
    &&& p.provider == c.provider
    &&& p.api_base_url == c.api_base
    &&& p.default_model == c.model
    &&& p.max_tokens == c.max_tokens
    &&& p.temperature == c.temperature
    &&& blank_or_masked(p.api_key)
    &&& (p.disabled is None || p.disabled == Some(c.disabled))
    &&& (p.disable_thinking is None || p.disable_thinking == c.disable_thinking)
}

proof fn lemma_echo_prefix(cs: Seq<LlmConfigView>, llm: UiLlmView, n: int)
    requires
        0 <= n <= cs.len(),
        llm.providers.len() == cs.len(),
        forall|i: int| 0 <= i < cs.len() ==> echoes(#[trigger] llm.providers[i], cs[i]),
        forall|i: int| 0 <= i < cs.len() ==> (#[trigger] cs[i]).provider.len() > 0 && cs[i].api_key.len() > 0,
    ensures
        cards_prefix(cs, llm, false, n) == cs.subrange(0, n),
    decreases n,
{
    if n > 0 {
        lemma_echo_prefix(cs, llm, n - 1);
        let i = n - 1;
        let p = llm.providers[i];
        assert(echoes(p, cs[i]));
        assert(cs[i].provider.len() > 0 && cs[i].api_key.len() > 0);
        assert((triple_pred(p.provider, p.api_base_url, p.default_model))(cs[i]));
        assert(card_kept(cs, llm, i) == Some(cs[i]));
        assert(card_entry(cs, llm, i) == cs[i]);
        assert(card_pushed(cs, llm, false, i));
        assert(cs.subrange(0, n) =~= cs.subrange(0, n - 1).push(cs[i]));
    }
}

/// Sending back the cards the configuration page shows (every key masked
/// or blank, nothing else changed) resolves to the stored provider set
/// exactly, keys included: each card keeps its own key, same-named cards
/// included, as long as every stored card is named and keyed.
pub proof fn law_masked_cards_round_trip(cs: Seq<LlmConfigView>, llm: UiLlmView)
    requires
        llm.providers.len() == cs.len(),
        forall|i: int| 0 <= i < cs.len() ==> echoes(#[trigger] llm.providers[i], cs[i]),
        forall|i: int| 0 <= i < cs.len() ==> (#[trigger] cs[i]).provider.len() > 0 && cs[i].api_key.len() > 0,
    ensures
        resolved_set(cs, llm, false) == cs,
{
    lemma_echo_prefix(cs, llm, cs.len() as int);
    assert(cs.subrange(0, cs.len() as int) =~= cs);
    assert(resolved_set(cs, llm, false) =~= cs);
}

// ── git platforms ──

/// Whether `uuid::Uuid::parse_str` accepts the text.
pub uninterp spec fn uuid_parses(s: Seq<char>) -> bool;

/// `uuid::Uuid::parse_str(s).is_ok()`.
#[verifier::external_body]
fn uuid_is_well_formed(s: &str) -> (r: bool)
    ensures
        r == uuid_parses(s@),
{
    uuid::Uuid::parse_str(s).is_ok()
}

/// A fresh random identifier: `uuid::Uuid::new_v4()` in its hyphenated
/// text form (36 characters, which `Uuid::parse_str` accepts).
#[verifier::external_body]
pub(crate) fn fresh_uuid() -> (r: String)
    ensures
        r@.len() == 36,
        uuid_parses(r@),
{
    uuid::Uuid::new_v4().to_string()
}

/// What `url::Url::parse(raw)` gives, seen through what the library reads:
/// on success the scheme (lowercase), the host text (`host_str`) if the URL
/// has a host, and the port (`port_or_known_default`) if one is known; on
/// failure the parse error's text.
pub uninterp spec fn url_parse(raw: Seq<char>) -> Result<(Seq<char>, Option<Seq<char>>, Option<u16>), Seq<char>>;

/// The two facts the platform validation reads: the scheme and whether the
/// URL has a host (`None` when parsing fails).
pub open spec fn url_scheme_and_host(raw: Seq<char>) -> Option<(Seq<char>, bool)> {
    match url_parse(raw) {
        Ok((scheme, host, _)) => Some((scheme, host is Some)),
        Err(_) => None,
    }
}

/// `reqwest::Url::parse(raw)` (the `url` crate's parser), reduced to its
/// scheme, `host_str()` and `port_or_known_default()`, or the error's text.
#[verifier::external_body]
pub(crate) fn parse_url(raw: &str) -> (r: Result<(String, Option<String>, Option<u16>), String>)
    ensures
        match r {
            Ok((scheme, host, port)) => url_parse(raw@) == Ok::<(Seq<char>, Option<Seq<char>>, Option<u16>), Seq<char>>(
                (
                    scheme@,
                    match host {
                        Some(h) => Some(h@),
                        None => None,
                    },
                    port,
                ),
            ),
            Err(e) => url_parse(raw@) == Err::<(Seq<char>, Option<Seq<char>>, Option<u16>), Seq<char>>(e@),
        },
{
    match reqwest::Url::parse(raw) {
        Ok(u) => Ok((u.scheme().to_string(), u.host_str().map(str::to_string), u.port_or_known_default())),
        Err(e) => Err(e.to_string()),
    }
}

/// The text after the first `://`, if any.
pub open spec fn after_scheme_sep(raw: Seq<char>) -> Option<Seq<char>> {
    if exists|i: int| 0 <= i && i + 3 <= raw.len() && #[trigger] raw.subrange(i, i + 3) == "://"@ {
        let i = choose|i: int|
            0 <= i && i + 3 <= raw.len() && #[trigger] raw.subrange(i, i + 3) == "://"@ && forall|j: int|
                0 <= j < i ==> #[trigger] raw.subrange(j, j + 3) != "://"@;
        Some(raw.subrange(i + 3, raw.len() as int))
    } else {
        None
    }
}

/// An absolute http(s) URL with a host, whose text carries a non-empty
/// authority right after `scheme://` (so `http:///host` is refused).
pub open spec fn is_absolute_http_url(raw: Seq<char>) -> bool {
    &&& url_scheme_and_host(raw) matches Some((scheme, has_host))
    &&& (scheme == "http"@ || scheme == "https"@)
    &&& has_host
    &&& after_scheme_sep(raw) matches Some(rest)
    &&& rest.len() > 0
    &&& rest[0] != '/'
}

/// The first `://` of `raw` and what follows it.
fn after_scheme_sep_exec(raw: &str) -> (r: Option<Vec<char>>)
    ensures
        match r {
            Some(rest) => after_scheme_sep(raw@) == Some(rest@),
            None => after_scheme_sep(raw@) is None,
        },
{
    let cs = crate::text::chars_of(raw);
    let n = cs.len();
    let mut i: usize = 0;
    proof {
        reveal_strlit("://");
    }
    while n >= 3 && i <= n - 3
        invariant
            cs@ == raw@,
            n == cs@.len(),
            i <= n,
            forall|j: int| 0 <= j < i && j + 3 <= n ==> (#[trigger] raw@.subrange(j, j + 3)) != "://"@,
        decreases n - i,
    {
        proof {
            reveal_strlit("://");
            assert("://"@ =~= seq![':', '/', '/']);
        }
        if cs[i] == ':' && cs[i + 1] == '/' && cs[i + 2] == '/' {
            proof {
                assert(raw@.subrange(i as int, i + 3) =~= "://"@);
                let k = choose|k: int|
                    0 <= k && k + 3 <= raw@.len() && #[trigger] raw@.subrange(k, k + 3) == "://"@ && forall|j: int|
                        0 <= j < k ==> #[trigger] raw@.subrange(j, j + 3) != "://"@;
                if k < i {
                    assert(raw@.subrange(k, k + 3) != "://"@);
                } else if k > i {
                    assert(raw@.subrange(i as int, i + 3) != "://"@);
                }
            }
            let mut rest: Vec<char> = Vec::new();
            let mut j: usize = i + 3;
            while j < n
                invariant
                    cs@ == raw@,
                    n == cs@.len(),
                    i + 3 <= j <= n,
                    rest@ == raw@.subrange(i + 3, j as int),
                decreases n - j,
            {
                rest.push(cs[j]);
                j = j + 1;
            }
            return Some(rest);
        }
        proof {
            if raw@.subrange(i as int, i + 3) == "://"@ {
                assert(raw@.subrange(i as int, i + 3)[0] == raw@[i as int]);
                assert(raw@.subrange(i as int, i + 3)[1] == raw@[i + 1]);
                assert(raw@.subrange(i as int, i + 3)[2] == raw@[i + 2]);
            }
        }
        i = i + 1;
    }
    None
}

/// Executable [`is_absolute_http_url`].
fn is_absolute_http_url_exec(raw: &str) -> (r: bool)
    ensures
        r == is_absolute_http_url(raw@),
{
    match parse_url(raw) {
        Err(_) => false,
        Ok((scheme, host, _)) => {
            if !(str_eq(scheme.as_str(), "http") || str_eq(scheme.as_str(), "https")) || host.is_none() {
                return false;
            }
            match after_scheme_sep_exec(raw) {
                None => false,
                Some(rest) => rest.len() > 0 && rest[0] != '/',
            }
        },
    }
}

/// The normalised `allowedProjects` of the first `n` submitted values:
/// trimmed, blanks dropped, duplicates dropped (first occurrence wins).
pub open spec fn sanitized(values: Seq<Seq<char>>, n: int) -> Seq<Seq<char>>
    decreases n,
{
    if n <= 0 {
        Seq::empty()
    } else {
        let prev = sanitized(values, n - 1);
        let t = trim_spec(values[n - 1]);
        if t.len() == 0 || prev.contains(t) {
            prev
        } else {
            prev.push(t)
        }
    }
}

/// Normalise a submitted `allowedProjects` list: trim every entry, drop
/// blank entries, and de-duplicate (first occurrence wins, order kept).
pub fn sanitize_allowed_projects(allowed: &Vec<String>) -> (r: Vec<String>)
    ensures
        string_views(r@) == sanitized(string_views(allowed@), allowed@.len() as int),
{
    let ghost vals = string_views(allowed@);
    let mut out: Vec<String> = Vec::new();
    let mut i: usize = 0;
    while i < allowed.len()
        invariant
            vals == string_views(allowed@),
            i <= allowed@.len(),
            string_views(out@) == sanitized(vals, i as int),
        decreases allowed@.len() - i,
    {
        let t = trim(allowed[i].as_str());
        assert(vals[i as int] == allowed@[i as int]@);
        if t.unicode_len() > 0 {
            let mut seen = false;
            let mut k: usize = 0;
            while k < out.len()
                invariant
                    k <= out@.len(),
                    seen == exists|q: int| 0 <= q < k && (#[trigger] out@[q])@ == t@,
                decreases out@.len() - k,
            {
                if str_eq(out[k].as_str(), t.as_str()) {
                    seen = true;
                }
                k = k + 1;
            }
            proof {
                let sv = string_views(out@);
                if seen {
                    let q = choose|q: int| 0 <= q < out@.len() && (#[trigger] out@[q])@ == t@;
                    assert(sv[q] == t@);
                } else {
                    assert forall|q: int| 0 <= q < sv.len() implies sv[q] != t@ by {
                        assert(sv[q] == out@[q]@);
                    }
                }
                assert(seen == sv.contains(t@));
            }
            if !seen {
                let ghost before = out@;
                out.push(t);
                proof {
                    assert(string_views(out@) =~= string_views(before).push(out@[before.len() as int]@));
                }
            }
        }
        i = i + 1;
    }
    out
}

/// A failed configuration update: the HTTP status and the error text.
#[derive(Debug)]
pub struct ApplyError {
    pub status: u16,
    pub message: String,
}


/// The entry name (trimmed).
pub open spec fn platform_name(p: UiGitPlatformView) -> Seq<char> {
    trim_spec(p.name)
}

/// The platform type: trimmed and lowercased, `gitlab` when blank.
pub open spec fn platform_type_of(p: UiGitPlatformView) -> Seq<char> {
    if trim_spec(p.platform_type).len() == 0 {
        "gitlab"@
    } else {
        ascii_lower_spec(trim_spec(p.platform_type))
    }
}

/// A URL field trimmed of whitespace and trailing `/`.
pub open spec fn url_field(raw: Seq<char>) -> Seq<char> {
    trim_end_char_spec(trim_spec(raw), '/')
}

pub open spec fn type_error(p: UiGitPlatformView) -> Seq<char> {
    "unsupported git platform type '"@ + p.platform_type + "' for entry '"@ + platform_name(p)
        + "' (only 'gitlab' is implemented)"@
}

pub open spec fn base_url_error(p: UiGitPlatformView) -> Seq<char> {
    "invalid baseUrl '"@ + p.base_url + "' for git platform '"@ + platform_name(p)
        + "': expected an absolute http(s) URL"@
}

pub open spec fn internal_url_error(p: UiGitPlatformView) -> Seq<char> {
    "invalid internalBaseUrl '"@ + p.internal_base_url + "' for git platform '"@ + platform_name(p)
        + "': expected an absolute http(s) URL"@
}

/// Why a named entry is refused, if it is: an unsupported type, a `baseUrl`
/// that is not an absolute http(s) URL, or a set `internalBaseUrl` that is
/// not one.
pub open spec fn entry_error(p: UiGitPlatformView) -> Option<Seq<char>> {
    if platform_type_of(p) != "gitlab"@ {
        Some(type_error(p))
    } else if !is_absolute_http_url(url_field(p.base_url)) {
        Some(base_url_error(p))
    } else if url_field(p.internal_base_url).len() > 0 && !is_absolute_http_url(url_field(p.internal_base_url)) {
        Some(internal_url_error(p))
    } else {
        None
    }
}

/// The platform type is matched ignoring ASCII case and surrounding blanks:
/// a submitted type that equals `gitlab` that way (`GitLab`, ` GITLAB `) is
/// stored as `gitlab` and never refused for its type, and so is a blank one;
/// any other type is refused with the type error.
pub proof fn law_platform_type_ignores_case(existing: Seq<GitPlatformView>, p: UiGitPlatformView, fresh: Seq<char>)
    ensures
        (trim_spec(p.platform_type).len() == 0 || eq_ignore_ascii_case_spec(trim_spec(p.platform_type), "gitlab"@))
            ==> platform_type_of(p) == "gitlab"@ && platform_entry(existing, p, fresh).platform_type == "gitlab"@
            && entry_error(p) != Some(type_error(p)),
        !(trim_spec(p.platform_type).len() == 0 || eq_ignore_ascii_case_spec(trim_spec(p.platform_type), "gitlab"@))
            ==> entry_error(p) == Some(type_error(p)),
{
    reveal_strlit("gitlab");
    let g = "gitlab"@;
    assert(ascii_lower_spec(g) =~= g) by {
        assert forall|k: int| 0 <= k < g.len() implies #[trigger] ascii_lower_spec(g)[k] == g[k] by {
            assert(g[k] == 'g' || g[k] == 'i' || g[k] == 't' || g[k] == 'l' || g[k] == 'a' || g[k] == 'b');
        }
    }
    reveal_strlit("unsupported git platform type '");
    reveal_strlit("invalid baseUrl '");
    reveal_strlit("invalid internalBaseUrl '");
    let t0 = "unsupported git platform type '"@;
    let b0 = "invalid baseUrl '"@;
    let i0 = "invalid internalBaseUrl '"@;
    assert(type_error(p)[0] == t0[0]);
    assert(base_url_error(p)[0] == b0[0]);
    assert(internal_url_error(p)[0] == i0[0]);
    assert(type_error(p) != base_url_error(p));
    assert(type_error(p) != internal_url_error(p));
}

pub open spec fn id_pred(id: Seq<char>) -> spec_fn(GitPlatformView) -> bool {
    |e: GitPlatformView| e.id == id
}

/// Stored entries with this name at this base URL.
pub open spec fn platform_pair_pred(name: Seq<char>, base_url: Seq<char>) -> spec_fn(GitPlatformView) -> bool {
    |e: GitPlatformView| e.name == name && e.base_url == base_url
}

/// The stored entry a submission is about: the one with its (well-formed)
/// id, else the one with its name at its (normalized) base URL; a submission
/// without a well-formed id matches by that (name, base URL) pair only, so
/// an entry re-pointed at another instance inherits nothing from the old one.
pub open spec fn platform_stored(existing: Seq<GitPlatformView>, p: UiGitPlatformView) -> Option<int> {
    let id = trim_spec(p.id);
    let by_name = first_from(existing, platform_pair_pred(platform_name(p), url_field(p.base_url)), 0);
    if uuid_parses(id) {
        match first_from(existing, id_pred(id), 0) {
            Some(j) => Some(j),
            None => by_name,
        }
    } else {
        by_name
    }
}

/// The entry's id: a well-formed submitted id is kept; otherwise the matched
/// stored entry's (non-empty) id is adopted; otherwise `fresh` is minted.
pub open spec fn platform_id(existing: Seq<GitPlatformView>, p: UiGitPlatformView, fresh: Seq<char>) -> Seq<char> {
    let id = trim_spec(p.id);
    if uuid_parses(id) {
        id
    } else {
        match platform_stored(existing, p) {
            Some(j) => if existing[j].id.len() > 0 {
                existing[j].id
            } else {
                fresh
            },
            None => fresh,
        }
    }
}

/// A submitted secret after the keep rules: the clear sentinel clears,
/// blank or masked keeps the stored value, anything else replaces it.
pub open spec fn keep_secret(submitted: Seq<char>, stored: Option<Seq<char>>) -> Seq<char> {
    if submitted == clear_sentinel_spec() {
        Seq::empty()
    } else if blank_or_masked(submitted) {
        match stored {
            Some(v) => v,
            None => Seq::empty(),
        }
    } else {
        submitted
    }
}

/// The secret-keep rule of a platform entry: the clear sentinel empties the
/// secret, a blank or masked submission keeps the stored one (nothing when
/// there is none), and any other value replaces it.
pub proof fn law_secret_keep_rule(submitted: Seq<char>, stored: Option<Seq<char>>)
    ensures
        submitted == clear_sentinel_spec() ==> keep_secret(submitted, stored).len() == 0,
        (submitted.len() == 0 || submitted == mask_spec()) ==> keep_secret(submitted, stored) == (match stored {
            Some(v) => v,
            None => Seq::<char>::empty(),
        }),
        submitted != clear_sentinel_spec() && submitted.len() > 0 && submitted != mask_spec() ==> keep_secret(
            submitted,
            stored,
        ) == submitted,
{
    reveal_strlit("__CLEAR__");
    assert(clear_sentinel_spec().len() > 0);
    assert(clear_sentinel_spec() != mask_spec()) by {
        assert(clear_sentinel_spec()[0] != mask_spec()[0]);
    }
}

/// The live entry a (valid, named) submission resolves to.
pub open spec fn platform_entry(existing: Seq<GitPlatformView>, p: UiGitPlatformView, fresh: Seq<char>) -> GitPlatformView {
    let st = platform_stored(existing, p);
    GitPlatformView {
        id: platform_id(existing, p, fresh),
        name: platform_name(p),
        platform_type: platform_type_of(p),
        base_url: url_field(p.base_url),
        internal_base_url: url_field(p.internal_base_url),
        token: keep_secret(
            p.token,
            match st {
                Some(j) => Some(existing[j].token),
                None => None,
            },
        ),
        webhook_secret: keep_secret(
            p.webhook_secret,
            match st {
                Some(j) => Some(existing[j].webhook_secret),
                None => None,
            },
        ),
        webhook_signing_secret: keep_secret(
            p.webhook_signing_secret,
            match st {
                Some(j) => Some(existing[j].webhook_signing_secret),
                None => None,
            },
        ),
        allowed_projects: sanitized(p.allowed_projects, p.allowed_projects.len() as int),
    }
}

/// The identity a submission carries for de-duplication: its id when it
/// sent one, else its name.
pub open spec fn submission_identity(p: UiGitPlatformView) -> (bool, Seq<char>) {
    if p.id.len() == 0 {
        (false, platform_name(p))
    } else {
        (true, p.id)
    }
}

pub open spec fn identity_pred(id: (bool, Seq<char>)) -> spec_fn(((bool, Seq<char>), GitPlatformView)) -> bool {
    |e: ((bool, Seq<char>), GitPlatformView)| e.0 == id
}

/// The first `n` submissions resolved: nameless entries skipped, the first
/// refused entry's error, and one entry per identity (placed where the
/// identity first appears, holding its last submission).
pub open spec fn platforms_prefix(
    submitted: Seq<UiGitPlatformView>,
    existing: Seq<GitPlatformView>,
    fresh: Seq<Seq<char>>,
    n: int,
) -> Result<Seq<((bool, Seq<char>), GitPlatformView)>, Seq<char>>
    decreases n,
{
    if n <= 0 {
        Ok(Seq::empty())
    } else {
        match platforms_prefix(submitted, existing, fresh, n - 1) {
            Err(e) => Err(e),
            Ok(acc) => {
                let p = submitted[n - 1];
                if platform_name(p).len() == 0 {
                    Ok(acc)
                } else {
                    match entry_error(p) {
                        Some(e) => Err(e),
                        None => {
                            let id = submission_identity(p);
                            let e = platform_entry(existing, p, fresh[n - 1]);
                            match first_from(acc, identity_pred(id), 0) {
                                Some(k) => Ok(acc.update(k, (id, e))),
                                None => Ok(acc.push((id, e))),
                            }
                        },
                    }
                }
            },
        }
    }
}

/// The submitted `gitPlatforms` array resolved against the stored set (the
/// full-replace-with-secret-keep rule), or the first refusal's message.
pub open spec fn resolved_platforms(
    submitted: Seq<UiGitPlatformView>,
    existing: Seq<GitPlatformView>,
    fresh: Seq<Seq<char>>,
) -> Result<Seq<GitPlatformView>, Seq<char>> {
    match platforms_prefix(submitted, existing, fresh, submitted.len() as int) {
        Ok(acc) => Ok(acc.map_values(|e: ((bool, Seq<char>), GitPlatformView)| e.1)),
        Err(e) => Err(e),
    }
}


fn platform_type_exec(p: &UiGitPlatformConfig) -> (r: String)
    ensures
        r@ == platform_type_of(p@),
{
    let t = trim(p.platform_type.as_str());
    if t.unicode_len() == 0 {
        String::from_str("gitlab")
    } else {
        to_ascii_lower(t.as_str())
    }
}

fn entry_error_exec(p: &UiGitPlatformConfig, name: &String, ptype: &String, base: &String, internal: &String) -> (r:
    Option<String>)
    requires
        name@ == platform_name(p@),
        ptype@ == platform_type_of(p@),
        base@ == url_field(p@.base_url),
        internal@ == url_field(p@.internal_base_url),
    ensures
        match r {
            Some(m) => entry_error(p@) == Some(m@),
            None => entry_error(p@) is None,
        },
{
    if !str_eq(ptype.as_str(), "gitlab") {
        let m = String::from_str("unsupported git platform type '").concat(p.platform_type.as_str()).concat(
            "' for entry '",
        ).concat(name.as_str()).concat("' (only 'gitlab' is implemented)");
        return Some(m);
    }
    if !is_absolute_http_url_exec(base.as_str()) {
        let m = String::from_str("invalid baseUrl '").concat(p.base_url.as_str()).concat(
            "' for git platform '",
        ).concat(name.as_str()).concat("': expected an absolute http(s) URL");
        return Some(m);
    }
    if internal.unicode_len() > 0 && !is_absolute_http_url_exec(internal.as_str()) {
        let m = String::from_str("invalid internalBaseUrl '").concat(p.internal_base_url.as_str()).concat(
            "' for git platform '",
        ).concat(name.as_str()).concat("': expected an absolute http(s) URL");
        return Some(m);
    }
    None
}

/// First stored entry whose id equals `key` (or, with `by_name`, whose name
/// equals `key` and whose base URL equals `base`).
fn find_platform(existing: &Vec<GitPlatformConfig>, key: &str, base: &str, by_name: bool) -> (r: Option<usize>)
    ensures
        ({
            let pred = if by_name {
                platform_pair_pred(key@, base@)
            } else {
                id_pred(key@)
            };
            &&& r matches Some(j) ==> j < existing@.len() && first_from(platform_views(existing@), pred, 0)
                == Some(j as int)
            &&& r is None ==> first_from(platform_views(existing@), pred, 0) is None
        }),
{
    let ghost ev = platform_views(existing@);
    let ghost pred = if by_name {
        platform_pair_pred(key@, base@)
    } else {
        id_pred(key@)
    };
    let mut i: usize = 0;
    while i < existing.len()
        invariant
            ev == platform_views(existing@),
            pred == (if by_name {
                platform_pair_pred(key@, base@)
            } else {
                id_pred(key@)
            }),
            i <= existing@.len(),
            first_from(ev, pred, 0) == first_from(ev, pred, i as int),
        decreases existing@.len() - i,
    {
        assert(ev[i as int] == existing@[i as int]@);
        let e = &existing[i];
        let hit = if by_name {
            str_eq(e.name.as_str(), key) && str_eq(e.base_url.as_str(), base)
        } else {
            str_eq(e.id.as_str(), key)
        };
        if hit {
            return Some(i);
        }
        i = i + 1;
    }
    None
}

fn keep_secret_exec(submitted: &str, stored: Option<&String>) -> (r: String)
    ensures
        r@ == keep_secret(
            submitted@,
            match stored {
                Some(v) => Some(v@),
                None => None,
            },
        ),
{
    proof {
        reveal_strlit("__CLEAR__");
    }
    if str_eq(submitted, CLEAR_SECRET_SENTINEL) {
        assert(CLEAR_SECRET_SENTINEL@ == clear_sentinel_spec());
        String::new()
    } else if is_blank_or_masked(submitted) {
        match stored {
            Some(v) => copy_str(v.as_str()),
            None => String::new(),
        }
    } else {
        copy_str(submitted)
    }
}

/// One submission resolved on its own: `Ok(None)` for a nameless entry, the
/// refusal for an invalid one, else the entry with its identity.
fn resolve_one(p: &UiGitPlatformConfig, existing: &Vec<GitPlatformConfig>, fresh: &String) -> (r: Result<
    Option<(GitPlatformConfig, bool, String)>,
    String,
>)
    ensures
        match r {
            Ok(None) => platform_name(p@).len() == 0,
            Ok(Some((e, has_id, key))) => {
                &&& platform_name(p@).len() > 0
                &&& entry_error(p@) is None
                &&& e@ == platform_entry(platform_views(existing@), p@, fresh@)
                &&& (has_id, key@) == submission_identity(p@)
            },
            Err(m) => platform_name(p@).len() > 0 && entry_error(p@) == Some(m@),
        },
{
    let ghost ex = platform_views(existing@);
    let name = trim(p.name.as_str());
    if name.unicode_len() == 0 {
        return Ok(None);
    }
    let ptype = platform_type_exec(p);
    let base = trim_url(p.base_url.as_str());
    let internal = trim_url(p.internal_base_url.as_str());
    match entry_error_exec(p, &name, &ptype, &base, &internal) {
        Some(m) => {
            return Err(m);
        },
        None => {},
    }
    let id_raw = trim(p.id.as_str());
    let well_formed = uuid_is_well_formed(id_raw.as_str());
    let stored_idx = if well_formed {
        match find_platform(existing, id_raw.as_str(), base.as_str(), false) {
            Some(j) => Some(j),
            None => find_platform(existing, name.as_str(), base.as_str(), true),
        }
    } else {
        find_platform(existing, name.as_str(), base.as_str(), true)
    };
    let stored: Option<&GitPlatformConfig> = match stored_idx {
        Some(j) => Some(&existing[j]),
        None => None,
    };
    proof {
        if stored_idx is Some {
            assert(ex[stored_idx->0 as int] == existing@[stored_idx->0 as int]@);
        }
    }
    let id = if well_formed {
        id_raw
    } else {
        match stored {
            Some(st) => if st.id.unicode_len() > 0 {
                copy_str(st.id.as_str())
            } else {
                copy_str(fresh.as_str())
            },
            None => copy_str(fresh.as_str()),
        }
    };
    let entry = GitPlatformConfig {
        id,
        name: copy_str(name.as_str()),
        platform_type: ptype,
        base_url: base,
        internal_base_url: internal,
        token: match stored {
            Some(st) => keep_secret_exec(p.token.as_str(), Some(&st.token)),
            None => keep_secret_exec(p.token.as_str(), None),
        },
        webhook_secret: match stored {
            Some(st) => keep_secret_exec(p.webhook_secret.as_str(), Some(&st.webhook_secret)),
            None => keep_secret_exec(p.webhook_secret.as_str(), None),
        },
        webhook_signing_secret: match stored {
            Some(st) => keep_secret_exec(p.webhook_signing_secret.as_str(), Some(&st.webhook_signing_secret)),
            None => keep_secret_exec(p.webhook_signing_secret.as_str(), None),
        },
        allowed_projects: sanitize_allowed_projects(&p.allowed_projects),
    };
    assert(entry@ == platform_entry(ex, p@, fresh@));
    let has_id = p.id.unicode_len() > 0;
    let key = if has_id {
        copy_str(p.id.as_str())
    } else {
        name
    };
    Ok(Some((entry, has_id, key)))
}

/// Position of the identity `(has_id, key)` among `idents`.
fn find_identity(idents: &Vec<(bool, String)>, has_id: bool, key: &String) -> (r: Option<usize>)
    ensures
        match r {
            Some(q) => q < idents@.len() && idents@[q as int].0 == has_id && idents@[q as int].1@ == key@
                && forall|j: int| 0 <= j < q ==> !((#[trigger] idents@[j]).0 == has_id && idents@[j].1@ == key@),
            None => forall|j: int| 0 <= j < idents@.len() ==> !((#[trigger] idents@[j]).0 == has_id && idents@[j].1@ == key@),
        },
{
    let mut k: usize = 0;
    while k < idents.len()
        invariant
            k <= idents@.len(),
            forall|j: int| 0 <= j < k ==> !((#[trigger] idents@[j]).0 == has_id && idents@[j].1@ == key@),
        decreases idents@.len() - k,
    {
        if idents[k].0 == has_id && str_eq(idents[k].1.as_str(), key.as_str()) {
            return Some(k);
        }
        k = k + 1;
    }
    None
}

/// `first_from` over the accumulated identities agrees with a scan of the
/// identity list they mirror.
proof fn lemma_identity_first(
    acc: Seq<((bool, Seq<char>), GitPlatformView)>,
    idents: Seq<(bool, String)>,
    ident: (bool, Seq<char>),
    r: Option<usize>,
)
    requires
        acc.len() == idents.len(),
        forall|q: int| 0 <= q < acc.len() ==> (#[trigger] acc[q]).0 == (idents[q].0, idents[q].1@),
        match r {
            Some(q) => q < idents.len() && idents[q as int].0 == ident.0 && idents[q as int].1@ == ident.1
                && forall|j: int| 0 <= j < q ==> !((#[trigger] idents[j]).0 == ident.0 && idents[j].1@ == ident.1),
            None => forall|j: int| 0 <= j < idents.len() ==> !((#[trigger] idents[j]).0 == ident.0 && idents[j].1@ == ident.1),
        },
    ensures
        first_from(acc, identity_pred(ident), 0) == match r {
            Some(q) => Some(q as int),
            None => None,
        },
{
    lemma_first_from_found(acc, identity_pred(ident), 0);
    match first_from(acc, identity_pred(ident), 0) {
        Some(f) => {
            assert(acc[f].0 == ident);
            assert(idents[f].0 == ident.0 && idents[f].1@ == ident.1);
            if r is Some {
                let q = r->0 as int;
                assert(acc[q].0 == ident);
                assert(!(f < q));
                assert(!(q < f)) by {
                    if q < f {
                        assert((identity_pred(ident))(acc[q]));
                    }
                }
            }
        },
        None => {
            if r is Some {
                let q = r->0 as int;
                assert((identity_pred(ident))(acc[q]));
            }
        },
    }
}

/// Resolve the submitted `gitPlatforms` array against the stored set, with
/// `fresh[i]` the id minted for submission `i` should it need one.
#[verifier::rlimit(40)]
pub fn resolve_git_platforms_with(
    submitted: &Vec<UiGitPlatformConfig>,
    existing: &Vec<GitPlatformConfig>,
    fresh: &Vec<String>,
) -> (r: Result<Vec<GitPlatformConfig>, String>)
    requires
        fresh@.len() == submitted@.len(),
    ensures
        match r {
            Ok(v) => resolved_platforms(
                ui_platform_views(submitted@),
                platform_views(existing@),
                string_views(fresh@),
            ) == Ok::<Seq<GitPlatformView>, Seq<char>>(platform_views(v@)),
            Err(m) => resolved_platforms(
                ui_platform_views(submitted@),
                platform_views(existing@),
                string_views(fresh@),
            ) == Err::<Seq<GitPlatformView>, Seq<char>>(m@),
        },
{
    let ghost sub = ui_platform_views(submitted@);
    let ghost ex = platform_views(existing@);
    let ghost fr = string_views(fresh@);
    let mut out: Vec<GitPlatformConfig> = Vec::new();
    let mut idents: Vec<(bool, String)> = Vec::new();
    let mut i: usize = 0;
    while i < submitted.len()
        invariant
            sub == ui_platform_views(submitted@),
            ex == platform_views(existing@),
            fr == string_views(fresh@),
            fresh@.len() == submitted@.len(),
            i <= submitted@.len(),
            out@.len() == idents@.len(),
            platforms_prefix(sub, ex, fr, i as int) is Ok,
            platforms_prefix(sub, ex, fr, i as int)->Ok_0.len() == out@.len(),
            forall|k: int|
                0 <= k < out@.len() ==> (#[trigger] platforms_prefix(sub, ex, fr, i as int)->Ok_0[k]).1
                    == out@[k]@ && platforms_prefix(sub, ex, fr, i as int)->Ok_0[k].0 == (
                    idents@[k].0,
                    idents@[k].1@,
                ),
        decreases submitted@.len() - i,
    {
        let ghost acc = platforms_prefix(sub, ex, fr, i as int)->Ok_0;
        assert(sub[i as int] == submitted@[i as int]@);
        assert(fr[i as int] == fresh@[i as int]@);
        match resolve_one(&submitted[i], existing, &fresh[i]) {
            Err(m) => {
                proof {
                    lemma_platforms_error_sticks(sub, ex, fr, i + 1, sub.len() as int);
                }
                return Err(m);
            },
            Ok(None) => {
                assert(platforms_prefix(sub, ex, fr, i + 1) == platforms_prefix(sub, ex, fr, i as int));
            },
            Ok(Some((entry, has_id, key))) => {
                let ghost ident = submission_identity(sub[i as int]);
                let pos = find_identity(&idents, has_id, &key);
                proof {
                    lemma_identity_first(acc, idents@, ident, pos);
                }
                match pos {
                    Some(q) => {
                        out.set(q, entry);
                        proof {
                            let na = acc.update(q as int, (ident, platform_entry(ex, sub[i as int], fr[i as int])));
                            assert(platforms_prefix(sub, ex, fr, i + 1) == Ok::<Seq<((bool, Seq<char>), GitPlatformView)>, Seq<char>>(na));
                            assert forall|k: int| 0 <= k < out@.len() implies (#[trigger] platforms_prefix(sub, ex, fr, i + 1)->Ok_0[k]).1
                                == out@[k]@ && platforms_prefix(sub, ex, fr, i + 1)->Ok_0[k].0 == (idents@[k].0, idents@[k].1@) by {
                                if k != q {
                                    assert(na[k] == acc[k]);
                                }
                            }
                        }
                    },
                    None => {
                        out.push(entry);
                        idents.push((has_id, key));
                        proof {
                            let na = acc.push((ident, platform_entry(ex, sub[i as int], fr[i as int])));
                            assert(platforms_prefix(sub, ex, fr, i + 1) == Ok::<Seq<((bool, Seq<char>), GitPlatformView)>, Seq<char>>(na));
                            assert forall|k: int| 0 <= k < out@.len() implies (#[trigger] platforms_prefix(sub, ex, fr, i + 1)->Ok_0[k]).1
                                == out@[k]@ && platforms_prefix(sub, ex, fr, i + 1)->Ok_0[k].0 == (idents@[k].0, idents@[k].1@) by {
                                if k < acc.len() {
                                    assert(na[k] == acc[k]);
                                }
                            }
                        }
                    },
                }
            },
        }
        i = i + 1;
    }
    proof {
        let acc = platforms_prefix(sub, ex, fr, sub.len() as int)->Ok_0;
        assert(acc.map_values(|e: ((bool, Seq<char>), GitPlatformView)| e.1) =~= platform_views(out@));
    }
    Ok(out)
}

/// Once a prefix is refused, every longer prefix carries the same refusal.
proof fn lemma_platforms_error_sticks(
    submitted: Seq<UiGitPlatformView>,
    existing: Seq<GitPlatformView>,
    fresh: Seq<Seq<char>>,
    n: int,
    m: int,
)
    requires
        0 <= n <= m,
        platforms_prefix(submitted, existing, fresh, n) is Err,
    ensures
        platforms_prefix(submitted, existing, fresh, m) == platforms_prefix(submitted, existing, fresh, n),
    decreases m - n,
{
    if n < m {
        lemma_platforms_error_sticks(submitted, existing, fresh, n + 1, m);
    }
}

/// Resolve the submitted `gitPlatforms` array against the stored set. A new
/// entry that needs an id gets a freshly generated one.
pub fn resolve_git_platforms(submitted: &Vec<UiGitPlatformConfig>, existing: &Vec<GitPlatformConfig>) -> (r: Result<
    Vec<GitPlatformConfig>,
    String,
>)
    ensures
        exists|fresh: Seq<Seq<char>>|
            #![trigger resolved_platforms(ui_platform_views(submitted@), platform_views(existing@), fresh)]
            fresh.len() == submitted@.len() && (forall|i: int| 0 <= i < fresh.len() ==> uuid_parses(#[trigger] fresh[i]))
                && match r {
                Ok(v) => resolved_platforms(ui_platform_views(submitted@), platform_views(existing@), fresh)
                    == Ok::<Seq<GitPlatformView>, Seq<char>>(platform_views(v@)),
                Err(m) => resolved_platforms(ui_platform_views(submitted@), platform_views(existing@), fresh)
                    == Err::<Seq<GitPlatformView>, Seq<char>>(m@),
            },
{
    let mut fresh: Vec<String> = Vec::new();
    let mut i: usize = 0;
    while i < submitted.len()
        invariant
            i <= submitted@.len(),
            fresh@.len() == i,
            forall|k: int| 0 <= k < i ==> uuid_parses((#[trigger] fresh@[k])@),
        decreases submitted@.len() - i,
    {
        fresh.push(fresh_uuid());
        i = i + 1;
    }
    let r = resolve_git_platforms_with(submitted, existing, &fresh);
    proof {
        let fv = string_views(fresh@);
        assert forall|k: int| 0 <= k < fv.len() implies uuid_parses(#[trigger] fv[k]) by {
            assert(fv[k] == fresh@[k]@);
        }
    }
    r
}

/// A submitted entry that is refused: it is named and has an error.
pub open spec fn refused_entry(p: UiGitPlatformView) -> bool {
    platform_name(p).len() > 0 && entry_error(p) is Some
}

proof fn lemma_prefix_refusal(
    submitted: Seq<UiGitPlatformView>,
    existing: Seq<GitPlatformView>,
    fresh: Seq<Seq<char>>,
    n: int,
)
    requires
        0 <= n <= submitted.len(),
    ensures
        platforms_prefix(submitted, existing, fresh, n) is Err <==> exists|i: int| 0 <= i < n && refused_entry(#[trigger] submitted[i]),
        forall|i: int|
            0 <= i < n && refused_entry(#[trigger] submitted[i]) && (forall|j: int| 0 <= j < i ==> !refused_entry(submitted[j]))
                ==> platforms_prefix(submitted, existing, fresh, n) == Err::<Seq<((bool, Seq<char>), GitPlatformView)>, Seq<char>>(
                entry_error(submitted[i])->0,
            ),
    decreases n,
{
    if n > 0 {
        lemma_prefix_refusal(submitted, existing, fresh, n - 1);
        let last = submitted[n - 1];
        assert forall|i: int|
            0 <= i < n && refused_entry(#[trigger] submitted[i]) && (forall|j: int| 0 <= j < i ==> !refused_entry(submitted[j]))
                implies platforms_prefix(submitted, existing, fresh, n) == Err::<Seq<((bool, Seq<char>), GitPlatformView)>, Seq<char>>(
                entry_error(submitted[i])->0,
            ) by {
            if i == n - 1 {
                assert(!(exists|k: int| 0 <= k < n - 1 && refused_entry(#[trigger] submitted[k])));
            }
        }
        if platforms_prefix(submitted, existing, fresh, n) is Err {
            if platforms_prefix(submitted, existing, fresh, n - 1) is Ok {
                assert(refused_entry(last));
            }
        }
    }
}

/// The platform refusal rule: a `gitPlatforms` submission is refused exactly
/// when one of its named entries has an unsupported type, a `baseUrl` that is
/// not an absolute http(s) URL, or a set `internalBaseUrl` that is not one;
/// the refusal is the first such entry's. Nameless entries are never refused.
pub proof fn law_platform_refusal_rule(
    submitted: Seq<UiGitPlatformView>,
    existing: Seq<GitPlatformView>,
    fresh: Seq<Seq<char>>,
)
    ensures
        resolved_platforms(submitted, existing, fresh) is Err <==> exists|i: int|
            0 <= i < submitted.len() && refused_entry(#[trigger] submitted[i]),
        forall|i: int|
            0 <= i < submitted.len() && refused_entry(#[trigger] submitted[i]) && (forall|j: int|
                0 <= j < i ==> !refused_entry(submitted[j])) ==> resolved_platforms(submitted, existing, fresh)
                == Err::<Seq<GitPlatformView>, Seq<char>>(entry_error(submitted[i])->0),
{
    lemma_prefix_refusal(submitted, existing, fresh, submitted.len() as int);
}

/// How many of cards `0..i` contribute an entry of their own.
pub open spec fn pushed_before(stored: Seq<LlmConfigView>, llm: UiLlmView, states_legacy: bool, i: int) -> int
    decreases i,
{
    if i <= 0 {
        0
    } else {
        pushed_before(stored, llm, states_legacy, i - 1) + if card_pushed(stored, llm, states_legacy, i - 1) {
            1int
        } else {
            0int
        }
    }
}

proof fn lemma_pushed_before_mono(stored: Seq<LlmConfigView>, llm: UiLlmView, states_legacy: bool, i: int, n: int)
    requires
        0 <= i < n,
    ensures
        0 <= pushed_before(stored, llm, states_legacy, i),
        pushed_before(stored, llm, states_legacy, i) + (if card_pushed(stored, llm, states_legacy, i) {
            1int
        } else {
            0int
        }) <= pushed_before(stored, llm, states_legacy, n),
    decreases n,
{
    if i + 1 < n {
        lemma_pushed_before_mono(stored, llm, states_legacy, i, n - 1);
    } else if i > 0 {
        lemma_pushed_before_mono(stored, llm, states_legacy, i - 1, i);
    }
}

proof fn lemma_cards_prefix_positions(stored: Seq<LlmConfigView>, llm: UiLlmView, states_legacy: bool, n: int)
    requires
        0 <= n,
    ensures
        cards_prefix(stored, llm, states_legacy, n).len() == pushed_before(stored, llm, states_legacy, n),
        forall|i: int|
            0 <= i < n && #[trigger] card_pushed(stored, llm, states_legacy, i) ==> cards_prefix(stored, llm, states_legacy, n)[pushed_before(
                stored,
                llm,
                states_legacy,
                i,
            )] == card_entry(stored, llm, i),
    decreases n,
{
    if n > 0 {
        lemma_cards_prefix_positions(stored, llm, states_legacy, n - 1);
        let prev = cards_prefix(stored, llm, states_legacy, n - 1);
        assert forall|i: int|
            0 <= i < n && #[trigger] card_pushed(stored, llm, states_legacy, i) implies cards_prefix(stored, llm, states_legacy, n)[pushed_before(
                stored,
                llm,
                states_legacy,
                i,
            )] == card_entry(stored, llm, i) by {
            if i < n - 1 {
                lemma_pushed_before_mono(stored, llm, states_legacy, i, n - 1);
                assert(pushed_before(stored, llm, states_legacy, i) < prev.len());
            } else if i > 0 {
                lemma_pushed_before_mono(stored, llm, states_legacy, i - 1, i);
            }
        }
    }
}

/// One card of a submitted llm section (`i`), when it is named and the
/// legacy scalar entry does not stand for it: its entry is in the resolved
/// set exactly when its key after the keep rule is non-empty; that entry
/// stands after the legacy entry (if any) and the entries of the cards before
/// it, and carries that key, the submitted `disabled` / `disable_thinking`
/// flags or else the kept stored card's, and the submitted provider, model,
/// base URL, token limit and temperature.
pub proof fn law_card_resolution(stored: Seq<LlmConfigView>, llm: UiLlmView, states_legacy: bool, i: int)
    requires
        0 <= i < llm.providers.len(),
        llm.providers[i].provider.len() > 0,
        !card_consumed(stored, llm, states_legacy, i),
    ensures
        ({
            let head = if legacy_applies(stored, llm, states_legacy) { 1int } else { 0int };
            let set = resolved_set(stored, llm, states_legacy);
            let p = llm.providers[i];
            let kept = card_kept(stored, llm, i);
            let key = card_key(stored, llm, i);
            &&& key == (if blank_or_masked(p.api_key) {
                match kept {
                    Some(c) => c.api_key,
                    None => Seq::empty(),
                }
            } else {
                p.api_key
            })
            &&& set.len() == head + pushed_before(stored, llm, states_legacy, llm.providers.len() as int)
            &&& (card_pushed(stored, llm, states_legacy, i) <==> key.len() > 0)
            &&& key.len() > 0 ==> set[head + pushed_before(stored, llm, states_legacy, i)] == (LlmConfigView {
                provider: p.provider,
                model: p.default_model,
                api_key: key,
                api_base: p.api_base_url,
                max_tokens: p.max_tokens,
                temperature: p.temperature,
                disable_thinking: keep_thinking(p.disable_thinking, kept),
                disabled: keep_disabled(p.disabled, kept),
            })
        }),
{
    let n = llm.providers.len() as int;
    lemma_cards_prefix_positions(stored, llm, states_legacy, n);
    let pushed = card_pushed(stored, llm, states_legacy, i);
    if pushed {
        lemma_pushed_before_mono(stored, llm, states_legacy, i, n);
        let head_seq = if legacy_applies(stored, llm, states_legacy) {
            seq![legacy_entry(stored, llm)]
        } else {
            Seq::empty()
        };
        let tail = cards_prefix(stored, llm, states_legacy, n);
        let k = pushed_before(stored, llm, states_legacy, i);
        assert(0 <= k < tail.len());
        assert(resolved_set(stored, llm, states_legacy) == head_seq + tail);
        assert((head_seq + tail)[head_seq.len() + k] == tail[k]);
    }
}

} // verus!
