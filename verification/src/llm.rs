//! The LLM provider cards: the runtime chain order, the card payload, and
//! the add / update / delete / test operations on the provider list.
//!
//! A card's id is `{provider}-{index}` (its index in the stored list). A
//! disabled card keeps its slot and history but is out of the chain.

use vstd::prelude::*;
use crate::llm_health::{live_fingerprints, LlmHealthStore, ProviderHealth, ProviderStatus};
use crate::llm_latency::{for_card_spec, LatencySnapshot, ProviderLatency, ProviderLatencyView};
use crate::llm_probe::{probe_for_card_spec, ProbeSnapshot, ProviderProbe};
use crate::llm_health::llm_fingerprint;
use crate::models::{llm_views, AppConfigView, LLMConfig, LlmConfigView, Temperature};
use crate::config::apply::ConfigState;
use crate::text::{
    copy_str, decimal_spec, eq_ignore_ascii_case, eq_ignore_ascii_case_spec, parse_usize, parse_usize_spec,
    push_char, rsplit_once, rsplit_once_spec, str_eq, usize_to_decimal,
};

verus! {

/// The number of enabled cards before index `i`.
pub open spec fn enabled_before(cs: Seq<LlmConfigView>, i: int) -> int
    decreases i,
{
    if i <= 0 {
        0
    } else {
        enabled_before(cs, i - 1) + (if cs[i - 1].disabled {
            0int
        } else {
            1int
        })
    }
}

/// The first enabled card named `primary` at or after `i`.
pub open spec fn first_named_from(cs: Seq<LlmConfigView>, primary: Seq<char>, i: int) -> Option<int>
    decreases cs.len() - i,
{
    if i < 0 || i >= cs.len() {
        None
    } else if !cs[i].disabled && cs[i].provider == primary {
        Some(i)
    } else {
        first_named_from(cs, primary, i + 1)
    }
}

/// The first enabled card at or after `i`.
pub open spec fn first_enabled_from(cs: Seq<LlmConfigView>, i: int) -> Option<int>
    decreases cs.len() - i,
{
    if i < 0 || i >= cs.len() {
        None
    } else if !cs[i].disabled {
        Some(i)
    } else {
        first_enabled_from(cs, i + 1)
    }
}

/// The head of the chain: the first enabled card named `primary`, else the
/// first enabled card.
pub open spec fn chain_head(cs: Seq<LlmConfigView>, primary: Seq<char>) -> Option<int> {
    match first_named_from(cs, primary, 0) {
        Some(h) => Some(h),
        None => first_enabled_from(cs, 0),
    }
}

/// The 1-based chain rank of card `i`: the head first, then the other
/// enabled cards in stored order; a disabled card has none.
pub open spec fn chain_rank(cs: Seq<LlmConfigView>, primary: Seq<char>, i: int) -> Option<usize> {
    if cs[i].disabled {
        None
    } else {
        let h = chain_head(cs, primary)->0;
        if h == i {
            Some(1)
        } else {
            Some((1 + enabled_before(cs, i) + (if h > i {
                1int
            } else {
                0int
            })) as usize)
        }
    }
}

proof fn lemma_first_named(cs: Seq<LlmConfigView>, primary: Seq<char>, i: int)
    requires
        0 <= i <= cs.len(),
    ensures
        match first_named_from(cs, primary, i) {
            Some(h) => i <= h < cs.len() && !cs[h].disabled && cs[h].provider == primary,
            None => forall|j: int| i <= j < cs.len() ==> cs[j].disabled || cs[j].provider != primary,
        },
    decreases cs.len() - i,
{
    if i < cs.len() {
        lemma_first_named(cs, primary, i + 1);
    }
}

proof fn lemma_first_enabled(cs: Seq<LlmConfigView>, i: int)
    requires
        0 <= i <= cs.len(),
    ensures
        match first_enabled_from(cs, i) {
            Some(h) => i <= h < cs.len() && !cs[h].disabled,
            None => forall|j: int| i <= j < cs.len() ==> cs[j].disabled,
        },
    decreases cs.len() - i,
{
    if i < cs.len() {
        lemma_first_enabled(cs, i + 1);
    }
}

proof fn lemma_enabled_before_mono(cs: Seq<LlmConfigView>, i: int, j: int)
    requires
        0 <= i <= j <= cs.len(),
    ensures
        enabled_before(cs, i) <= enabled_before(cs, j),
        enabled_before(cs, j) <= enabled_before(cs, i) + (j - i),
        i < j && !cs[i].disabled ==> enabled_before(cs, i) + 1 <= enabled_before(cs, j),
    decreases j - i,
{
    if i < j {
        lemma_enabled_before_mono(cs, i, j - 1);
        if i < j - 1 {
            lemma_enabled_before_mono(cs, i + 1, j);
        }
    }
}

/// The chain ranks the enabled cards 1, 2, ..., k without gaps or ties
/// (k is the number of enabled cards); the first enabled card named by the
/// primary leads it; a disabled card has no rank.
pub proof fn law_chain_ranks_enabled_cards(cs: Seq<LlmConfigView>, primary: Seq<char>, i: int, j: int)
    requires
        0 <= i < cs.len(),
        0 <= j < cs.len(),
        cs.len() < usize::MAX,
    ensures
        cs[i].disabled <==> chain_rank(cs, primary, i) is None,
        !cs[i].disabled ==> 1 <= chain_rank(cs, primary, i)->0 <= enabled_before(cs, cs.len() as int),
        !cs[i].disabled && !cs[j].disabled && i != j ==> chain_rank(cs, primary, i) != chain_rank(cs, primary, j),
        first_named_from(cs, primary, 0) == Some(i) ==> chain_rank(cs, primary, i) == Some(1usize),
{
    lemma_first_named(cs, primary, 0);
    lemma_first_enabled(cs, 0);
    let n = cs.len() as int;
    if !cs[i].disabled {
        let h = chain_head(cs, primary)->0;
        assert(chain_head(cs, primary) is Some);
        assert(0 <= h < n && !cs[h].disabled);
        lemma_enabled_before_mono(cs, 0, h);
        lemma_enabled_before_mono(cs, h, n);
        lemma_enabled_before_mono(cs, 0, i);
        lemma_enabled_before_mono(cs, i, n);
        if h < i {
            lemma_enabled_before_mono(cs, h, i);
        } else if i < h {
            lemma_enabled_before_mono(cs, i, h);
        }
        if !cs[j].disabled && i != j {
            lemma_enabled_before_mono(cs, 0, j);
            lemma_enabled_before_mono(cs, j, n);
            if h < j {
                lemma_enabled_before_mono(cs, h, j);
            } else if j < h {
                lemma_enabled_before_mono(cs, j, h);
            }
            if i < j {
                lemma_enabled_before_mono(cs, i, j);
            } else {
                lemma_enabled_before_mono(cs, j, i);
            }
        }
    }
}

fn chain_head_exec(primary: &str, configs: &Vec<LLMConfig>) -> (r: Option<usize>)
    ensures
        match r {
            Some(h) => chain_head(llm_views(configs@), primary@) == Some(h as int),
            None => chain_head(llm_views(configs@), primary@).is_none(),
        },
{
    let ghost cs = llm_views(configs@);
    let n = configs.len();
    let mut named: Option<usize> = None;
    let mut first: Option<usize> = None;
    let mut i: usize = n;
    while i > 0
        invariant
            n == configs@.len(),
            cs == llm_views(configs@),
            i <= n,
            match named {
                Some(h) => first_named_from(cs, primary@, i as int) == Some(h as int),
                None => first_named_from(cs, primary@, i as int).is_none(),
            },
            match first {
                Some(h) => first_enabled_from(cs, i as int) == Some(h as int),
                None => first_enabled_from(cs, i as int).is_none(),
            },
        decreases i,
    {
        i = i - 1;
        let c = &configs[i];
        assert(cs[i as int] == c@);
        if !c.disabled {
            first = Some(i);
            if str_eq(c.provider.as_str(), primary) {
                named = Some(i);
            }
        }
    }
    match named {
        Some(h) => Some(h),
        None => first,
    }
}

/// The 1-based chain rank of every card, in stored order (`None` for a
/// disabled card).
pub fn chain_positions(primary: &str, configs: &Vec<LLMConfig>) -> (r: Vec<Option<usize>>)
    ensures
        r@.len() == configs@.len(),
        forall|i: int| 0 <= i < configs@.len() ==> #[trigger] r@[i] == chain_rank(llm_views(configs@), primary@, i),
{
    let ghost cs = llm_views(configs@);
    let head = chain_head_exec(primary, configs);
    proof {
        lemma_first_named(cs, primary@, 0);
        lemma_first_enabled(cs, 0);
    }
    let n = configs.len();
    let mut out: Vec<Option<usize>> = Vec::new();
    let mut before: usize = 0;
    let mut i: usize = 0;
    while i < n
        invariant
            n == configs@.len(),
            cs == llm_views(configs@),
            i <= n,
            before == enabled_before(cs, i as int),
            before <= i,
            out@.len() == i,
            match head {
                Some(h) => chain_head(cs, primary@) == Some(h as int) && h < n,
                None => chain_head(cs, primary@).is_none() && forall|j: int| 0 <= j < n ==> (#[trigger] cs[j]).disabled,
            },
            forall|j: int| 0 <= j < i ==> #[trigger] out@[j] == chain_rank(cs, primary@, j),
        decreases n - i,
    {
        let c = &configs[i];
        assert(cs[i as int] == c@);
        let rank: Option<usize> = if c.disabled {
            None
        } else {
            match head {
                Some(h) => {
                    if h == i {
                        Some(1)
                    } else if h > i {
                        Some(before + 2)
                    } else {
                        Some(before + 1)
                    }
                },
                None => None,
            }
        };
        out.push(rank);
        if !c.disabled {
            before = before + 1;
        }
        i = i + 1;
    }
    out
}

/// How many enabled cards share `provider` and `model`.
pub open spec fn same_pair_enabled(cs: Seq<LlmConfigView>, provider: Seq<char>, model: Seq<char>) -> int
    decreases cs.len(),
{
    if cs.len() == 0 {
        0
    } else {
        same_pair_enabled(cs.drop_last(), provider, model) + (if !cs.last().disabled && cs.last().provider == provider
            && cs.last().model == model {
            1int
        } else {
            0int
        })
    }
}

/// Whether the pre-fingerprint statistics of `cfg`'s provider and model may
/// be merged into `cfg`: only into the unique enabled card of that pair.
pub open spec fn may_merge_unmarked_spec(cs: Seq<LlmConfigView>, cfg: LlmConfigView) -> bool {
    !cfg.disabled && same_pair_enabled(cs, cfg.provider, cfg.model) == 1
}

proof fn lemma_same_pair_counts(cs: Seq<LlmConfigView>, provider: Seq<char>, model: Seq<char>, i: int, j: int)
    ensures
        same_pair_enabled(cs, provider, model) >= 0,
        0 <= i < cs.len() && !cs[i].disabled && cs[i].provider == provider && cs[i].model == model
            ==> same_pair_enabled(cs, provider, model) >= 1,
        0 <= i < j < cs.len() && !cs[i].disabled && cs[i].provider == provider && cs[i].model == model
            && !cs[j].disabled && cs[j].provider == provider && cs[j].model == model
            ==> same_pair_enabled(cs, provider, model) >= 2,
    decreases cs.len(),
{
    if cs.len() > 0 {
        let t = cs.drop_last();
        let l = cs.len() - 1;
        lemma_same_pair_counts(t, provider, model, i, j);
        if 0 <= i < l {
            assert(t[i] == cs[i]);
            lemma_same_pair_counts(t, provider, model, i, i);
        }
        if 0 <= j < l {
            assert(t[j] == cs[j]);
        }
    }
}

/// Pre-fingerprint statistics of a (provider, model) pair merge only into
/// the unique enabled card of that pair: a disabled card never gets them,
/// and when two enabled cards share the pair neither does; a lone enabled
/// card of its pair does.
pub proof fn law_unmarked_stats_merge_into_the_unique_enabled_card(cs: Seq<LlmConfigView>, cfg: LlmConfigView, i: int, j: int)
    ensures
        cfg.disabled ==> !may_merge_unmarked_spec(cs, cfg),
        0 <= i < j < cs.len() && !cs[i].disabled && !cs[j].disabled && cs[i].provider == cfg.provider
            && cs[i].model == cfg.model && cs[j].provider == cfg.provider && cs[j].model == cfg.model
            ==> !may_merge_unmarked_spec(cs, cfg),
        !cfg.disabled ==> may_merge_unmarked_spec(seq![cfg], cfg),
{
    lemma_same_pair_counts(cs, cfg.provider, cfg.model, i, j);
    let one = seq![cfg];
    assert(one.drop_last() =~= Seq::<LlmConfigView>::empty());
    assert(same_pair_enabled(Seq::<LlmConfigView>::empty(), cfg.provider, cfg.model) == 0);
}

pub fn may_merge_unmarked(configs: &Vec<LLMConfig>, cfg: &LLMConfig) -> (r: bool)
    ensures
        r == may_merge_unmarked_spec(llm_views(configs@), cfg@),
{
    if cfg.disabled {
        return false;
    }
    let ghost cs = llm_views(configs@);
    let mut count: usize = 0;
    let mut i: usize = 0;
    while i < configs.len()
        invariant
            cs == llm_views(configs@),
            i <= configs@.len(),
            count == same_pair_enabled(cs.subrange(0, i as int), cfg@.provider, cfg@.model),
            count <= i,
        decreases configs@.len() - i,
    {
        proof {
            let p = cs.subrange(0, i + 1);
            assert(p.drop_last() =~= cs.subrange(0, i as int));
            assert(p.last() == configs@[i as int]@);
        }
        let c = &configs[i];
        if !c.disabled && str_eq(c.provider.as_str(), cfg.provider.as_str()) && str_eq(
            c.model.as_str(),
            cfg.model.as_str(),
        ) {
            count = count + 1;
        }
        i = i + 1;
    }
    assert(cs.subrange(0, configs@.len() as int) =~= cs);
    count == 1
}

pub open spec fn logo_spec(provider: Seq<char>) -> Seq<char> {
    if eq_ignore_ascii_case_spec(provider, "openai"@) {
        "OpenAI"@
    } else if eq_ignore_ascii_case_spec(provider, "anthropic"@) {
        "Anthropic"@
    } else if eq_ignore_ascii_case_spec(provider, "ollama"@) {
        "Ollama"@
    } else if eq_ignore_ascii_case_spec(provider, "azure"@) {
        "Azure"@
    } else if eq_ignore_ascii_case_spec(provider, "google"@) {
        "Google"@
    } else if eq_ignore_ascii_case_spec(provider, "cohere"@) {
        "Cohere"@
    } else {
        "Generic"@
    }
}

/// The logo ignores ASCII case: two provider names that differ only in case
/// get the same logo, and a name that matches none of the known providers
/// (ignoring case) gets the generic one.
pub proof fn law_logo_ignores_case(a: Seq<char>, b: Seq<char>)
    ensures
        eq_ignore_ascii_case_spec(a, b) ==> logo_spec(a) == logo_spec(b),
        !eq_ignore_ascii_case_spec(a, "openai"@) && !eq_ignore_ascii_case_spec(a, "anthropic"@)
            && !eq_ignore_ascii_case_spec(a, "ollama"@) && !eq_ignore_ascii_case_spec(a, "azure"@)
            && !eq_ignore_ascii_case_spec(a, "google"@) && !eq_ignore_ascii_case_spec(a, "cohere"@) ==> logo_spec(a)
            == "Generic"@,
{
}

/// The logo name shown for a provider (case-insensitive), `Generic` for
/// any other.
pub fn logo_for_provider(provider: &str) -> (r: String)
    ensures
        r@ == logo_spec(provider@),
{
    let s = if eq_ignore_ascii_case(provider, "openai") {
        "OpenAI"
    } else if eq_ignore_ascii_case(provider, "anthropic") {
        "Anthropic"
    } else if eq_ignore_ascii_case(provider, "ollama") {
        "Ollama"
    } else if eq_ignore_ascii_case(provider, "azure") {
        "Azure"
    } else if eq_ignore_ascii_case(provider, "google") {
        "Google"
    } else if eq_ignore_ascii_case(provider, "cohere") {
        "Cohere"
    } else {
        "Generic"
    };
    String::from_str(s)
}

/// The id of the card at `index`.
pub open spec fn provider_id_spec(provider: Seq<char>, index: nat) -> Seq<char> {
    provider + seq!['-'] + decimal_spec(index)
}

pub fn provider_id(provider: &str, index: usize) -> (r: String)
    ensures
        r@ == provider_id_spec(provider@, index as nat),
{
    let mut s = copy_str(provider);
    push_char(&mut s, '-');
    let d = usize_to_decimal(index);
    let ghost before = s@;
    let dc = crate::text::chars_of(d.as_str());
    let mut i: usize = 0;
    while i < dc.len()
        invariant
            i <= dc@.len(),
            dc@ == d@,
            s@ == before + dc@.subrange(0, i as int),
        decreases dc@.len() - i,
    {
        push_char(&mut s, dc[i]);
        i = i + 1;
    }
    assert(dc@.subrange(0, dc@.len() as int) =~= dc@);
    assert(s@ =~= provider@ + seq!['-'] + decimal_spec(index as nat));
    s
}

/// Why a provider operation was refused: the HTTP status and the message.
#[derive(Debug)]
pub struct ProviderOpError {
    pub status: u16,
    pub message: String,
}

/// What an id names: the provider and the index, or why it names nothing.
pub open spec fn parse_id_spec(id: Seq<char>) -> Result<(Seq<char>, usize), (u16, Seq<char>)> {
    match rsplit_once_spec(id, '-') {
        None => Err((400u16, "Invalid provider id format"@)),
        Some(parts) => match parse_usize_spec(parts.1) {
            None => Err((400u16, "Invalid provider id index"@)),
            Some(i) => Ok((parts.0, i)),
        },
    }
}

/// Parse a `{provider}-{index}` id.
pub fn parse_provider_id(id: &str) -> (r: Result<(String, usize), ProviderOpError>)
    ensures
        match r {
            Ok(p) => parse_id_spec(id@) == Ok::<(Seq<char>, usize), (u16, Seq<char>)>((p.0@, p.1)),
            Err(e) => parse_id_spec(id@) == Err::<(Seq<char>, usize), (u16, Seq<char>)>((e.status, e.message@)),
        },
{
    match rsplit_once(id, '-') {
        None => Err(ProviderOpError { status: 400, message: String::from_str("Invalid provider id format") }),
        Some((provider, idx)) => match parse_usize(idx.as_str()) {
            None => Err(ProviderOpError { status: 400, message: String::from_str("Invalid provider id index") }),
            Some(i) => Ok((provider, i)),
        },
    }
}

/// The card a parsed id designates in `cs`, or the not-found error.
pub open spec fn locate_spec(cs: Seq<LlmConfigView>, id: Seq<char>) -> Result<usize, (u16, Seq<char>)> {
    match parse_id_spec(id) {
        Err(e) => Err(e),
        Ok(p) => if p.1 >= cs.len() {
            Err((404u16, "Provider not found"@))
        } else if cs[p.1 as int].provider != p.0 {
            Err((404u16, "Provider id mismatch"@))
        } else {
            Ok(p.1)
        },
    }
}

fn locate(configs: &Vec<LLMConfig>, id: &str) -> (r: Result<usize, ProviderOpError>)
    ensures
        match r {
            Ok(i) => locate_spec(llm_views(configs@), id@) == Ok::<usize, (u16, Seq<char>)>(i),
            Err(e) => locate_spec(llm_views(configs@), id@) == Err::<usize, (u16, Seq<char>)>((e.status, e.message@)),
        },
{
    let (provider, idx) = match parse_provider_id(id) {
        Ok(p) => p,
        Err(e) => return Err(e),
    };
    if idx >= configs.len() {
        return Err(ProviderOpError { status: 404, message: String::from_str("Provider not found") });
    }
    assert(llm_views(configs@)[idx as int] == configs@[idx as int]@);
    if !str_eq(configs[idx].provider.as_str(), provider.as_str()) {
        return Err(ProviderOpError { status: 404, message: String::from_str("Provider id mismatch") });
    }
    Ok(idx)
}

/// A new card: the provider, its model, key and base URL, token limit and
/// temperature.
#[derive(Debug)]
pub struct AddProviderRequest {
    pub provider: String,
    pub model: String,
    pub api_key: String,
    pub api_base: String,
    pub max_tokens: u32,
    pub temperature: Temperature,
}

/// The default token limit of a new card.
pub fn default_add_max_tokens() -> (r: u32)
    ensures
        r == 4096,
{
    4096
}

/// The default temperature of a new card (0.7).
pub fn default_add_temperature() -> (r: Temperature)
    ensures
        r.bits == 0x3F33_3333,
{
    Temperature { bits: 0x3F33_3333 }
}

/// The card an add request creates.
pub open spec fn added_card(p: Seq<char>, m: Seq<char>, k: Seq<char>, b: Seq<char>, t: u32, temp: Temperature) -> LlmConfigView {
    LlmConfigView {
        provider: p,
        model: m,
        api_key: k,
        api_base: b,
        max_tokens: t,
        temperature: temp,
        disable_thinking: None,
        disabled: false,
    }
}

/// The list step of [`add_provider`]: add a card at the end of `configs`;
/// returns its id. Refused when the provider name or the key is empty.
pub fn add_provider_list(configs: &mut Vec<LLMConfig>, req: &AddProviderRequest) -> (r: Result<String, ProviderOpError>)
    ensures
        req.provider@.len() == 0 ==> (r matches Err(e) && e.status == 400 && e.message@ == "provider name is required"@
            && final(configs)@ == old(configs)@),
        req.provider@.len() > 0 && req.api_key@.len() == 0 ==> (r matches Err(e) && e.status == 400 && e.message@
            == "api_key is required"@ && final(configs)@ == old(configs)@),
        req.provider@.len() > 0 && req.api_key@.len() > 0 ==> (r matches Ok(id) && id@ == provider_id_spec(
            req.provider@,
            old(configs)@.len(),
        ) && llm_views(final(configs)@) == llm_views(old(configs)@).push(
            added_card(req.provider@, req.model@, req.api_key@, req.api_base@, req.max_tokens, req.temperature),
        )),
{
    if req.provider.as_str().is_empty() {
        return Err(ProviderOpError { status: 400, message: String::from_str("provider name is required") });
    }
    if req.api_key.as_str().is_empty() {
        return Err(ProviderOpError { status: 400, message: String::from_str("api_key is required") });
    }
    let id = provider_id(req.provider.as_str(), configs.len());
    let ghost before = configs@;
    configs.push(
        LLMConfig {
            provider: copy_str(req.provider.as_str()),
            model: copy_str(req.model.as_str()),
            api_key: copy_str(req.api_key.as_str()),
            api_base: copy_str(req.api_base.as_str()),
            max_tokens: req.max_tokens,
            temperature: req.temperature,
            disable_thinking: None,
            disabled: false,
        },
    );
    assert(llm_views(configs@) =~= llm_views(before).push(
        added_card(req.provider@, req.model@, req.api_key@, req.api_base@, req.max_tokens, req.temperature),
    ));
    Ok(id)
}

/// The list step of [`delete_provider`]: delete the card an id names;
/// returns the removed card.
pub fn delete_provider_list(configs: &mut Vec<LLMConfig>, id: &str) -> (r: Result<LLMConfig, ProviderOpError>)
    ensures
        match locate_spec(llm_views(old(configs)@), id@) {
            Ok(i) => r matches Ok(c) && c@ == old(configs)@[i as int]@ && final(configs)@ == old(configs)@.remove(i as int),
            Err(e) => r matches Err(x) && (x.status, x.message@) == e && final(configs)@ == old(configs)@,
        },
{
    match locate(configs, id) {
        Err(e) => Err(e),
        Ok(i) => Ok(configs.remove(i)),
    }
}

/// The cards of `cs` that do not share both provider and key with `removed`.
pub open spec fn without_matching(cs: Seq<LlmConfigView>, removed: LlmConfigView) -> Seq<LlmConfigView>
    decreases cs.len(),
{
    if cs.len() == 0 {
        cs
    } else {
        let r = without_matching(cs.drop_last(), removed);
        if cs.last().provider != removed.provider || cs.last().api_key != removed.api_key {
            r.push(cs.last())
        } else {
            r
        }
    }
}

/// Drop from `list` every card with the removed card's provider and key
/// (how the loaded configuration follows a deletion).
pub fn remove_matching(list: &mut Vec<LLMConfig>, removed: &LLMConfig)
    ensures
        llm_views(final(list)@) == without_matching(llm_views(old(list)@), removed@),
{
    let ghost src = llm_views(list@);
    let mut rest: Vec<LLMConfig> = Vec::new();
    std::mem::swap(&mut rest, list);
    let mut out: Vec<LLMConfig> = Vec::new();
    let ghost mut c: int = 0;
    while rest.len() > 0
        invariant
            0 <= c <= src.len(),
            llm_views(rest@) == src.subrange(c, src.len() as int),
            llm_views(out@) == without_matching(src.subrange(0, c), removed@),
        decreases rest@.len(),
    {
        let ghost rv = llm_views(rest@);
        let ghost r0 = rest@;
        let e = rest.remove(0);
        proof {
            assert(e == r0[0]);
            assert(rv[0] == r0[0]@);
            assert(rv.len() == r0.len());
            assert(rv[0] == src.subrange(c, src.len() as int)[0]);
            assert(e@ == src[c]);
            let p = src.subrange(0, c + 1);
            assert(p.drop_last() =~= src.subrange(0, c));
            assert(p.last() == e@);
        }
        let keep = !str_eq(e.provider.as_str(), removed.provider.as_str()) || !str_eq(
            e.api_key.as_str(),
            removed.api_key.as_str(),
        );
        let ghost ob = llm_views(out@);
        if keep {
            out.push(e);
            assert(llm_views(out@) =~= ob.push(e@));
        }
        proof {
            c = c + 1;
            assert forall|k: int| 0 <= k < rest@.len() implies #[trigger] llm_views(rest@)[k] == src[c + k] by {
                assert(rest@[k] == r0[k + 1]);
                assert(rv[k + 1] == r0[k + 1]@);
            }
            assert(llm_views(rest@) =~= src.subrange(c, src.len() as int));
        }
    }
    assert(src.subrange(0, c) =~= src);
    *list = out;
}

/// After a change of the provider list, forget the health of every card
/// that is no longer configured with the same key.
pub fn invalidate_removed_health(health: &mut LlmHealthStore, live: &Vec<LLMConfig>)
    ensures
        final(health).cache() == old(health).cache().restrict(live_fingerprints(llm_views(live@))),
        final(health).ttl() == old(health).ttl(),
{
    let _ = health.retain_live(live);
}

/// The fields of an update: empty strings leave the stored value.
#[derive(Debug)]
pub struct UpdateProviderRequest {
    pub model: String,
    pub api_key: String,
    pub api_base: String,
    pub max_tokens: u32,
    pub temperature: Temperature,
}

pub open spec fn updated_card(c: LlmConfigView, m: Seq<char>, k: Seq<char>, b: Seq<char>, t: u32, temp: Temperature) -> LlmConfigView {
    LlmConfigView {
        model: if m.len() > 0 {
            m
        } else {
            c.model
        },
        api_key: if k.len() > 0 {
            k
        } else {
            c.api_key
        },
        api_base: if b.len() > 0 {
            b
        } else {
            c.api_base
        },
        max_tokens: t,
        temperature: temp,
        ..c
    }
}

/// An update keeps what it leaves blank: a blank model, key or base URL
/// leaves the card's stored one, a non-empty one replaces it; the provider
/// name and both flags are never touched, and the token limit and
/// temperature are the submitted ones. So a card configured before an update
/// that leaves the key blank is still configured, with the same key.
pub proof fn law_update_keeps_blank_fields(
    c: LlmConfigView,
    model: Seq<char>,
    key: Seq<char>,
    base: Seq<char>,
    max_tokens: u32,
    temperature: Temperature,
)
    ensures
        ({
            let u = updated_card(c, model, key, base, max_tokens, temperature);
            &&& key.len() == 0 ==> u.api_key == c.api_key
            &&& key.len() > 0 ==> u.api_key == key
            &&& model.len() == 0 ==> u.model == c.model
            &&& model.len() > 0 ==> u.model == model
            &&& base.len() == 0 ==> u.api_base == c.api_base
            &&& base.len() > 0 ==> u.api_base == base
            &&& u.provider == c.provider && u.disabled == c.disabled && u.disable_thinking == c.disable_thinking
            &&& u.max_tokens == max_tokens && u.temperature == temperature
            &&& (u.api_key.len() > 0) == (c.api_key.len() > 0 || key.len() > 0)
        }),
{
}

/// The list step of [`update_provider`]: update the card an id names;
/// returns the updated card.
pub fn update_provider_list(configs: &mut Vec<LLMConfig>, id: &str, req: &UpdateProviderRequest) -> (r: Result<
    LLMConfig,
    ProviderOpError,
>)
    ensures
        match locate_spec(llm_views(old(configs)@), id@) {
            Ok(i) => r matches Ok(c) && c@ == updated_card(
                old(configs)@[i as int]@,
                req.model@,
                req.api_key@,
                req.api_base@,
                req.max_tokens,
                req.temperature,
            ) && final(configs)@.len() == old(configs)@.len() && final(configs)@[i as int]@ == c@ && forall|j: int|
                0 <= j < old(configs)@.len() && j != i ==> #[trigger] final(configs)@[j] == old(configs)@[j],
            Err(e) => r matches Err(x) && (x.status, x.message@) == e && final(configs)@ == old(configs)@,
        },
{
    let i = match locate(configs, id) {
        Err(e) => return Err(e),
        Ok(i) => i,
    };
    let old_c = &configs[i];
    let updated = LLMConfig {
        provider: copy_str(old_c.provider.as_str()),
        model: if req.model.as_str().is_empty() {
            copy_str(old_c.model.as_str())
        } else {
            copy_str(req.model.as_str())
        },
        api_key: if req.api_key.as_str().is_empty() {
            copy_str(old_c.api_key.as_str())
        } else {
            copy_str(req.api_key.as_str())
        },
        api_base: if req.api_base.as_str().is_empty() {
            copy_str(old_c.api_base.as_str())
        } else {
            copy_str(req.api_base.as_str())
        },
        max_tokens: req.max_tokens,
        temperature: req.temperature,
        disable_thinking: old_c.disable_thinking,
        disabled: old_c.disabled,
    };
    let ret = updated.copy();
    configs.set(i, updated);
    Ok(ret)
}

/// Put `updated` at `index` of `list` when the index exists (how the loaded
/// configuration follows an update).
pub fn replace_at(list: &mut Vec<LLMConfig>, index: usize, updated: &LLMConfig)
    ensures
        index < old(list)@.len() ==> final(list)@.len() == old(list)@.len() && final(list)@[index as int]@ == updated@
            && forall|j: int| 0 <= j < old(list)@.len() && j != index ==> #[trigger] final(list)@[j] == old(list)@[j],
        index >= old(list)@.len() ==> final(list)@ == old(list)@,
{
    if index < list.len() {
        list.set(index, updated.copy());
    }
}

// ── provider operations on the whole configuration state ──

/// The loaded configuration's provider list after `f`, the rest unchanged;
/// an unloaded configuration stays unloaded.
pub open spec fn app_llm_follows(
    before: Option<crate::models::AppConfig>,
    after: Option<crate::models::AppConfig>,
    llm: spec_fn(Seq<LlmConfigView>) -> Seq<LlmConfigView>,
) -> bool {
    match before {
        None => after is None,
        Some(a) => after matches Some(b) && b@ == (AppConfigView { llm: llm(a@.llm), ..a@ }),
    }
}

/// What a provider operation leaves alone: the projection, the platforms,
/// their health and the GitLab runtime.
pub open spec fn rest_unchanged(before: ConfigState, after: ConfigState) -> bool {
    &&& after.ui_config == before.ui_config
    &&& after.git_platforms == before.git_platforms
    &&& after.git_health == before.git_health
    &&& after.gitlab_runtime == before.gitlab_runtime
}

/// The health cache after the provider list became `live`: only entries of
/// configured cards with the same key survive.
pub open spec fn health_follows(before: LlmHealthStore, after: LlmHealthStore, live: Seq<LLMConfig>) -> bool {
    &&& after.cache() == before.cache().restrict(live_fingerprints(llm_views(live)))
    &&& after.ttl() == before.ttl()
}

/// Put `c` at index `i` of a list when the index exists.
pub open spec fn replaced_at(cs: Seq<LlmConfigView>, i: int, c: LlmConfigView) -> Seq<LlmConfigView> {
    if 0 <= i < cs.len() {
        cs.update(i, c)
    } else {
        cs
    }
}

fn add_to_app(app: &mut Option<crate::models::AppConfig>, card: &LLMConfig)
    ensures
        app_llm_follows(*old(app), *final(app), |cs: Seq<LlmConfigView>| cs.push(card@)),
{
    match app {
        Some(a) => {
            let ghost before = a.llm@;
            a.llm.push(card.copy());
            assert(llm_views(a.llm@) =~= llm_views(before).push(card@));
        },
        None => {},
    }
}

fn replace_in_app(app: &mut Option<crate::models::AppConfig>, index: usize, card: &LLMConfig)
    ensures
        app_llm_follows(*old(app), *final(app), |cs: Seq<LlmConfigView>| replaced_at(cs, index as int, card@)),
{
    match app {
        Some(a) => {
            let ghost before = a.llm@;
            replace_at(&mut a.llm, index, card);
            proof {
                if (index as int) < before.len() {
                    assert(llm_views(a.llm@) =~= llm_views(before).update(index as int, card@));
                } else {
                    assert(llm_views(a.llm@) =~= llm_views(before));
                }
            }
        },
        None => {},
    }
}

fn remove_from_app(app: &mut Option<crate::models::AppConfig>, removed: &LLMConfig)
    ensures
        app_llm_follows(*old(app), *final(app), |cs: Seq<LlmConfigView>| without_matching(cs, removed@)),
{
    match app {
        Some(a) => {
            remove_matching(&mut a.llm, removed);
        },
        None => {},
    }
}

/// Add a card to the configuration: the runtime list and the loaded
/// configuration both get it at the end, and the health cache keeps only
/// entries of configured cards. Refused (nothing changes) when the provider
/// name or the key is empty.
pub fn add_provider(state: &mut ConfigState, req: &AddProviderRequest) -> (r: Result<String, ProviderOpError>)
    ensures
        req.provider@.len() == 0 ==> (r matches Err(e) && e.status == 400 && e.message@ == "provider name is required"@),
        req.provider@.len() > 0 && req.api_key@.len() == 0 ==> (r matches Err(e) && e.status == 400 && e.message@
            == "api_key is required"@),
        req.provider@.len() > 0 && req.api_key@.len() > 0 ==> r is Ok,
        r is Err ==> *final(state) == *old(state),
        r is Ok ==> ({
            let card = added_card(req.provider@, req.model@, req.api_key@, req.api_base@, req.max_tokens, req.temperature);
            &&& req.provider@.len() > 0 && req.api_key@.len() > 0
            &&& r matches Ok(id) && id@ == provider_id_spec(req.provider@, old(state).llm_configs@.len())
            &&& llm_views(final(state).llm_configs@) == llm_views(old(state).llm_configs@).push(card)
            &&& app_llm_follows(old(state).app_config, final(state).app_config, |cs: Seq<LlmConfigView>| cs.push(card))
            &&& health_follows(old(state).llm_health, final(state).llm_health, final(state).llm_configs@)
            &&& rest_unchanged(*old(state), *final(state))
        }),
{
    if req.provider.as_str().is_empty() {
        return Err(ProviderOpError { status: 400, message: String::from_str("provider name is required") });
    }
    if req.api_key.as_str().is_empty() {
        return Err(ProviderOpError { status: 400, message: String::from_str("api_key is required") });
    }
    let ghost before = llm_views(state.llm_configs@);
    let id = match add_provider_list(&mut state.llm_configs, req) {
        Ok(id) => id,
        Err(e) => return Err(e),
    };
    invalidate_removed_health(&mut state.llm_health, &state.llm_configs);
    let n = state.llm_configs.len();
    let card = state.llm_configs[n - 1].copy();
    proof {
        assert(llm_views(state.llm_configs@)[n - 1] == state.llm_configs@[n - 1]@);
    }
    add_to_app(&mut state.app_config, &card);
    Ok(id)
}

/// Update the card an id names, in the runtime list and at the same index of
/// the loaded configuration, then drop the health entries no configured card
/// has any more. Refused (nothing changes) on a bad or unknown id.
pub fn update_provider(state: &mut ConfigState, id: &str, req: &UpdateProviderRequest) -> (r: Result<
    LLMConfig,
    ProviderOpError,
>)
    ensures
        match locate_spec(llm_views(old(state).llm_configs@), id@) {
            Ok(i) => {
                let c = updated_card(
                    old(state).llm_configs@[i as int]@,
                    req.model@,
                    req.api_key@,
                    req.api_base@,
                    req.max_tokens,
                    req.temperature,
                );
                &&& r matches Ok(u) && u@ == c
                &&& llm_views(final(state).llm_configs@) == llm_views(old(state).llm_configs@).update(i as int, c)
                &&& app_llm_follows(
                    old(state).app_config,
                    final(state).app_config,
                    |cs: Seq<LlmConfigView>| replaced_at(cs, i as int, c),
                )
                &&& health_follows(old(state).llm_health, final(state).llm_health, final(state).llm_configs@)
                &&& rest_unchanged(*old(state), *final(state))
            },
            Err(e) => r matches Err(x) && (x.status, x.message@) == e && *final(state) == *old(state),
        },
{
    let i = match locate(&state.llm_configs, id) {
        Err(e) => return Err(e),
        Ok(i) => i,
    };
    let ghost before = state.llm_configs@;
    let updated = match update_provider_list(&mut state.llm_configs, id, req) {
        Ok(c) => c,
        Err(e) => return Err(e),
    };
    proof {
        assert(llm_views(state.llm_configs@) =~= llm_views(before).update(i as int, updated@));
    }
    invalidate_removed_health(&mut state.llm_health, &state.llm_configs);
    replace_in_app(&mut state.app_config, i, &updated);
    Ok(updated)
}

/// Delete the card an id names from the runtime list; the loaded
/// configuration drops every card with its provider and key, and the health
/// entries no configured card has any more are dropped. Refused (nothing
/// changes) on a bad or unknown id.
pub fn delete_provider(state: &mut ConfigState, id: &str) -> (r: Result<LLMConfig, ProviderOpError>)
    ensures
        match locate_spec(llm_views(old(state).llm_configs@), id@) {
            Ok(i) => {
                let removed = old(state).llm_configs@[i as int]@;
                &&& r matches Ok(c) && c@ == removed
                &&& final(state).llm_configs@ == old(state).llm_configs@.remove(i as int)
                &&& app_llm_follows(
                    old(state).app_config,
                    final(state).app_config,
                    |cs: Seq<LlmConfigView>| without_matching(cs, removed),
                )
                &&& health_follows(old(state).llm_health, final(state).llm_health, final(state).llm_configs@)
                &&& rest_unchanged(*old(state), *final(state))
            },
            Err(e) => r matches Err(x) && (x.status, x.message@) == e && *final(state) == *old(state),
        },
{
    let i = match locate(&state.llm_configs, id) {
        Err(e) => return Err(e),
        Ok(i) => i,
    };
    let removed = match delete_provider_list(&mut state.llm_configs, id) {
        Ok(c) => c,
        Err(e) => return Err(e),
    };
    invalidate_removed_health(&mut state.llm_health, &state.llm_configs);
    remove_from_app(&mut state.app_config, &removed);
    Ok(removed)
}

/// The card a test request names: the first whose `{provider}-{index}` id
/// equals `id`.
pub open spec fn test_target_spec(cs: Seq<LlmConfigView>, id: Seq<char>) -> Option<int> {
    if exists|i: int| 0 <= i < cs.len() && provider_id_spec(cs[i].provider, i as nat) == id {
        Some(
            choose|i: int|
                0 <= i < cs.len() && provider_id_spec(cs[i].provider, i as nat) == id && forall|j: int|
                    0 <= j < i ==> provider_id_spec(cs[j].provider, j as nat) != id,
        )
    } else {
        None
    }
}

/// Find the card a test request names.
pub fn find_for_test(configs: &Vec<LLMConfig>, id: &str) -> (r: Option<LLMConfig>)
    ensures
        match r {
            Some(c) => test_target_spec(llm_views(configs@), id@) matches Some(i) && c@ == configs@[i]@,
            None => test_target_spec(llm_views(configs@), id@).is_none(),
        },
{
    let ghost cs = llm_views(configs@);
    let mut i: usize = 0;
    while i < configs.len()
        invariant
            cs == llm_views(configs@),
            i <= configs@.len(),
            forall|j: int| 0 <= j < i ==> provider_id_spec(#[trigger] cs[j].provider, j as nat) != id@,
        decreases configs@.len() - i,
    {
        let cand = provider_id(configs[i].provider.as_str(), i);
        assert(cs[i as int] == configs@[i as int]@);
        if str_eq(cand.as_str(), id) {
            proof {
                let w = choose|w: int|
                    0 <= w < cs.len() && provider_id_spec(cs[w].provider, w as nat) == id@ && forall|j: int|
                        0 <= j < w ==> provider_id_spec(cs[j].provider, j as nat) != id@;
                assert(0 <= w < cs.len() && provider_id_spec(cs[w].provider, w as nat) == id@ && forall|j: int|
                    0 <= j < w ==> provider_id_spec(cs[j].provider, j as nat) != id@);
                if w < i {
                    assert(provider_id_spec(cs[w].provider, w as nat) != id@);
                }
                if w > i {
                    assert(provider_id_spec(cs[i as int].provider, i as nat) != id@);
                }
            }
            return Some(configs[i].copy());
        }
        i = i + 1;
    }
    None
}

/// One card of the provider page.
#[derive(Debug)]
pub struct ProviderItem {
    pub id: String,
    pub name: String,
    pub logo: String,
    /// The probe report's status (`offline` when the card has no report).
    pub status: ProviderStatus,
    /// Whether a key is stored.
    pub configured: bool,
    pub disabled: bool,
    pub api_base: String,
    pub model: String,
    pub max_tokens: u32,
    pub temperature: Temperature,
    /// The index in the stored list.
    pub position: usize,
    /// The 1-based rank in the runtime chain; `None` for a disabled card.
    pub chain_position: Option<usize>,
    pub is_primary: bool,
    /// Round trip of the probe behind `status` (0 when none ran).
    pub last_probe_latency_ms: u64,
    /// When that probe ran; `None` when none ran.
    pub last_checked: Option<i64>,
    /// Recorded call latency; `None` when the samples could not be read.
    pub latency: Option<ProviderLatency>,
    /// Recorded probe latency; `None` when the samples could not be read.
    pub probe: Option<ProviderProbe>,
}

/// What the card of `cs[i]` says, given its health report (if any).
pub open spec fn item_ok(
    it: ProviderItem,
    cs: Seq<LlmConfigView>,
    primary: Seq<char>,
    i: int,
    report: Option<crate::llm_health::ProviderHealthView>,
) -> bool {
    let c = cs[i];
    &&& it.id@ == provider_id_spec(c.provider, i as nat)
    &&& it.name@ == c.provider
    &&& it.logo@ == logo_spec(c.provider)
    &&& it.status == (match report {
        Some(h) => h.status,
        None => ProviderStatus::Offline,
    })
    &&& it.configured == (c.api_key.len() > 0)
    &&& it.disabled == c.disabled
    &&& it.api_base@ == c.api_base
    &&& it.model@ == c.model
    &&& it.max_tokens == c.max_tokens
    &&& it.temperature == c.temperature
    &&& it.position == i
    &&& it.chain_position == chain_rank(cs, primary, i)
    &&& it.is_primary == (chain_rank(cs, primary, i) == Some(1usize))
    &&& it.last_probe_latency_ms == (match report {
        Some(h) => h.latency_ms,
        None => 0,
    })
    &&& it.last_checked == (match report {
        Some(h) => if h.status == ProviderStatus::Offline || h.status == ProviderStatus::Disabled {
            None
        } else {
            Some(h.checked_at)
        },
        None => None,
    })
}

/// The card payload of the provider page: one item per stored card, in
/// stored order, with its chain rank, its probe report and its recorded
/// call and probe latency (matched by the card's own fingerprint).
pub fn provider_items(
    primary: &str,
    configs: &Vec<LLMConfig>,
    health: &Vec<ProviderHealth>,
    latency: Option<&LatencySnapshot>,
    probe: Option<&ProbeSnapshot>,
) -> (r: Vec<ProviderItem>)
    ensures
        r@.len() == configs@.len(),
        forall|i: int| 0 <= i < configs@.len() ==> item_ok(
            #[trigger] r@[i],
            llm_views(configs@),
            primary@,
            i,
            if i < health@.len() {
                Some(health@[i]@)
            } else {
                None
            },
        ),
        forall|i: int| 0 <= i < configs@.len() ==> match latency {
            Some(s) => (#[trigger] r@[i]).latency matches Some(l) && l@ == for_card_spec(
                s.samples(),
                s.window(),
                configs@[i]@.provider,
                configs@[i]@.model,
                llm_fingerprint(configs@[i]@),
                may_merge_unmarked_spec(llm_views(configs@), configs@[i]@),
            ),
            None => r@[i].latency.is_none(),
        },
        forall|i: int| 0 <= i < configs@.len() ==> match probe {
            Some(s) => (#[trigger] r@[i]).probe == Some(
                probe_for_card_spec(s.samples(), configs@[i]@.provider, llm_fingerprint(configs@[i]@)),
            ),
            None => r@[i].probe.is_none(),
        },
{
    let ghost cs = llm_views(configs@);
    let ranks = chain_positions(primary, configs);
    let mut out: Vec<ProviderItem> = Vec::new();
    let mut i: usize = 0;
    while i < configs.len()
        invariant
            cs == llm_views(configs@),
            i <= configs@.len(),
            ranks@.len() == configs@.len(),
            forall|k: int| 0 <= k < configs@.len() ==> #[trigger] ranks@[k] == chain_rank(cs, primary@, k),
            out@.len() == i,
            forall|k: int| 0 <= k < i ==> item_ok(
                #[trigger] out@[k],
                cs,
                primary@,
                k,
                if k < health@.len() {
                    Some(health@[k]@)
                } else {
                    None
                },
            ),
            forall|k: int| 0 <= k < i ==> match latency {
                Some(s) => (#[trigger] out@[k]).latency matches Some(l) && l@ == for_card_spec(
                    s.samples(),
                    s.window(),
                    configs@[k]@.provider,
                    configs@[k]@.model,
                    llm_fingerprint(configs@[k]@),
                    may_merge_unmarked_spec(cs, configs@[k]@),
                ),
                None => out@[k].latency.is_none(),
            },
            forall|k: int| 0 <= k < i ==> match probe {
                Some(s) => (#[trigger] out@[k]).probe == Some(
                    probe_for_card_spec(s.samples(), configs@[k]@.provider, llm_fingerprint(configs@[k]@)),
                ),
                None => out@[k].probe.is_none(),
            },
        decreases configs@.len() - i,
    {
        let cfg = &configs[i];
        assert(cs[i as int] == cfg@);
        let rank = ranks[i];
        let (status, probe_ms, checked) = if i < health.len() {
            let h = &health[i];
            let checked = match h.status {
                ProviderStatus::Offline => None,
                ProviderStatus::Disabled => None,
                _ => Some(h.checked_at),
            };
            (h.status, h.latency_ms, checked)
        } else {
            (ProviderStatus::Offline, 0u64, None)
        };
        let fp = cfg.entry_fp();
        let merge = may_merge_unmarked(configs, cfg);
        let lat = match latency {
            Some(s) => Some(s.for_card(cfg.provider.as_str(), cfg.model.as_str(), fp.as_str(), merge)),
            None => None,
        };
        let prb = match probe {
            Some(s) => Some(s.for_card(cfg.provider.as_str(), fp.as_str())),
            None => None,
        };
        let is_primary = match rank {
            Some(1) => true,
            _ => false,
        };
        let item = ProviderItem {
            id: provider_id(cfg.provider.as_str(), i),
            name: copy_str(cfg.provider.as_str()),
            logo: logo_for_provider(cfg.provider.as_str()),
            status,
            configured: !cfg.api_key.as_str().is_empty(),
            disabled: cfg.disabled,
            api_base: copy_str(cfg.api_base.as_str()),
            model: copy_str(cfg.model.as_str()),
            max_tokens: cfg.max_tokens,
            temperature: cfg.temperature,
            position: i,
            chain_position: rank,
            is_primary,
            last_probe_latency_ms: probe_ms,
            last_checked: checked,
            latency: lat,
            probe: prb,
        };
        out.push(item);
        i = i + 1;
    }
    out
}

/// A card's status, probe latency and check time come from its probe
/// report alone: two cards that differ only in their stored key (or in
/// anything else but the report) read the same status.
pub proof fn law_status_comes_from_the_report(
    a: ProviderItem,
    b: ProviderItem,
    cs_a: Seq<LlmConfigView>,
    cs_b: Seq<LlmConfigView>,
    primary: Seq<char>,
    i: int,
    j: int,
    report: crate::llm_health::ProviderHealthView,
)
    requires
        0 <= i < cs_a.len(),
        0 <= j < cs_b.len(),
        item_ok(a, cs_a, primary, i, Some(report)),
        item_ok(b, cs_b, primary, j, Some(report)),
    ensures
        a.status == b.status,
        a.status == report.status,
        a.last_probe_latency_ms == b.last_probe_latency_ms,
        a.last_checked == b.last_checked,
{
}

/// A card's id names it again: parsing `{provider}-{index}` gives back the
/// provider and the index, whatever the provider's name holds.
pub proof fn law_provider_id_round_trip(provider: Seq<char>, index: usize)
    ensures
        parse_id_spec(provider_id_spec(provider, index as nat)) == Ok::<(Seq<char>, usize), (u16, Seq<char>)>(
            (provider, index),
        ),
{
    let d = decimal_spec(index as nat);
    crate::text::lemma_decimal_digits(index as nat);
    crate::text::law_parse_decimal_round_trip(index);
    let s = provider_id_spec(provider, index as nat);
    let k = provider.len() as int;
    assert(s[k] == '-');
    assert forall|j: int| k < j < s.len() implies s[j] != '-' by {
        assert(s[j] == d[j - k - 1]);
        assert(crate::text::is_digit(d[j - k - 1]));
    }
    crate::text::lemma_last_occurrence(s, '-', k);
    assert(s.subrange(0, k) =~= provider);
    assert(s.subrange(k + 1, s.len() as int) =~= d);
}

} // verus!
