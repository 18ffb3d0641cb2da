//! The UI projection of a freshly loaded backend configuration.

use vstd::prelude::*;
use crate::models::{AppConfig, AppConfigView, LLMConfig, LlmConfigView, Temperature};
use crate::text::{copy_str, str_eq};
use super::types::{
    default_api_base_spec, default_temperature, default_temperature_spec, ui_provider_views, UiAdvancedConfig,
    UiAdvancedView, UiConfig, UiConfigView, UiGitLabConfig, UiGitLabView, UiLlmConfig, UiLlmProviderConfig,
    UiLlmProviderView, UiLlmView, UiRulesConfig, UiRulesView,
};

verus! {

/// The last card named `openai` before index `n`.
pub open spec fn last_openai(cs: Seq<LlmConfigView>, n: int) -> Option<int>
    decreases n,
{
    if n <= 0 {
        None
    } else if cs[n - 1].provider == "openai"@ {
        Some(n - 1)
    } else {
        last_openai(cs, n - 1)
    }
}

/// The card the legacy scalar mirror describes: the last `openai` card,
/// else the first card.
pub open spec fn mirror_source(cs: Seq<LlmConfigView>) -> Option<int> {
    match last_openai(cs, cs.len() as int) {
        Some(i) => Some(i),
        None => if cs.len() > 0 {
            Some(0)
        } else {
            None
        },
    }
}

proof fn lemma_last_openai(cs: Seq<LlmConfigView>, n: int)
    requires
        0 <= n <= cs.len(),
    ensures
        match last_openai(cs, n) {
            Some(i) => 0 <= i < n && cs[i].provider == "openai"@ && forall|j: int| i < j < n ==> (#[trigger] cs[j]).provider != "openai"@,
            None => forall|j: int| 0 <= j < n ==> (#[trigger] cs[j]).provider != "openai"@,
        },
    decreases n,
{
    if n > 0 && cs[n - 1].provider != "openai"@ {
        lemma_last_openai(cs, n - 1);
    }
}

/// The legacy scalar mirror of a loaded configuration describes its last
/// `openai` card when it has one, otherwise its first card, and nothing when
/// it has no card.
pub proof fn law_mirror_describes_the_last_openai_card(cs: Seq<LlmConfigView>)
    ensures
        (exists|i: int| 0 <= i < cs.len() && (#[trigger] cs[i]).provider == "openai"@) ==> (mirror_source(cs) matches Some(i)
            && 0 <= i < cs.len() && cs[i].provider == "openai"@ && forall|j: int|
            i < j < cs.len() ==> (#[trigger] cs[j]).provider != "openai"@),
        cs.len() > 0 && (forall|i: int| 0 <= i < cs.len() ==> (#[trigger] cs[i]).provider != "openai"@)
            ==> mirror_source(cs) == Some(0int),
        cs.len() == 0 ==> mirror_source(cs) is None,
{
    lemma_last_openai(cs, cs.len() as int);
}

/// A card's API base as the mirror shows it: the OpenAI default when blank.
pub open spec fn mirror_base(b: Seq<char>) -> Seq<char> {
    if b.len() == 0 {
        default_api_base_spec()
    } else {
        b
    }
}

/// The projected provider card of a backend card.
pub open spec fn projected_card(c: LlmConfigView) -> UiLlmProviderView {
    UiLlmProviderView {
        provider: c.provider,
        api_key: c.api_key,
        api_base_url: c.api_base,
        default_model: c.model,
        max_tokens: c.max_tokens,
        temperature: c.temperature,
        timeout_seconds: 60,
        retry_attempts: 3,
        disabled: Some(c.disabled),
        disable_thinking: c.disable_thinking,
    }
}

/// A temperature of zero is shown as the default 0.7.
pub open spec fn shown_temperature(t: Temperature) -> Temperature {
    if t.is_zero_spec() {
        default_temperature_spec()
    } else {
        t
    }
}

/// The projection of a loaded configuration: the legacy mirror of the
/// source card, every card, the concurrency cap (5 when unset), metrics on,
/// a minimum score of 75, everything else empty.
pub open spec fn from_app_spec(app: AppConfigView) -> UiConfigView {
    let cs = app.llm;
    let src = mirror_source(cs);
    UiConfigView {
        gitlab: UiGitLabView {
            url: Seq::empty(),
            api_token: Seq::empty(),
            webhook_secret: Seq::empty(),
            webhook_signing_secret: Seq::empty(),
            default_project: Seq::empty(),
            mr_label: Seq::empty(),
            auto_review: false,
        },
        llm: UiLlmView {
            primary_provider: match src {
                Some(i) => cs[i].provider,
                None => Seq::empty(),
            },
            openai_api_key: match src {
                Some(i) => cs[i].api_key,
                None => Seq::empty(),
            },
            api_base_url: match src {
                Some(i) => mirror_base(cs[i].api_base),
                None => Seq::empty(),
            },
            default_model: match src {
                Some(i) => cs[i].model,
                None => Seq::empty(),
            },
            max_tokens: match src {
                Some(i) => cs[i].max_tokens,
                None => 0,
            },
            temperature: shown_temperature(
                match src {
                    Some(i) => cs[i].temperature,
                    None => Temperature { bits: 0 },
                },
            ),
            timeout_seconds: 0,
            retry_attempts: 0,
            providers: cs.map_values(|c: LlmConfigView| projected_card(c)),
        },
        rules: UiRulesView {
            min_score: 75,
            block_on_critical: false,
            auto_comment_on_pass: false,
            comment_template: Seq::empty(),
            excluded_patterns: Seq::empty(),
            required_experts: Seq::empty(),
            max_review_duration_seconds: 0,
        },
        advanced: UiAdvancedView {
            log_level: Seq::empty(),
            log_retention_days: 0,
            sse_heartbeat_interval: 0,
            max_concurrent_reviews: (match app.max_concurrent_llm_calls {
                Some(v) => v,
                None => 5usize,
            }) as u32,
            request_timeout: 0,
            enable_metrics: true,
            debug_mode: false,
        },
        git_platforms: Seq::empty(),
        aggregated: None,
    }
}

fn mirror_source_exec(cs: &Vec<LLMConfig>) -> (r: Option<usize>)
    ensures
        match r {
            Some(i) => mirror_source(crate::models::llm_views(cs@)) == Some(i as int) && i < cs@.len(),
            None => mirror_source(crate::models::llm_views(cs@)).is_none(),
        },
{
    let ghost v = crate::models::llm_views(cs@);
    let mut i: usize = cs.len();
    proof {
        reveal_strlit("openai");
    }
    while i > 0
        invariant
            i <= cs@.len(),
            v == crate::models::llm_views(cs@),
            last_openai(v, cs@.len() as int) == last_openai(v, i as int),
        decreases i,
    {
        assert(v[i - 1] == cs@[i - 1]@);
        if str_eq(cs[i - 1].provider.as_str(), "openai") {
            return Some(i - 1);
        }
        i = i - 1;
    }
    if cs.len() > 0 {
        Some(0)
    } else {
        None
    }
}

impl UiConfig {
    /// Build the UI projection of a loaded backend configuration.
    pub fn from_app_config(app: &AppConfig) -> (r: UiConfig)
        ensures
            r@ == from_app_spec(app@),
    {
        let src = mirror_source_exec(&app.llm);
        let ghost cs = app@.llm;
        let mut llm = UiLlmConfig {
            primary_provider: String::new(),
            openai_api_key: String::new(),
            api_base_url: String::new(),
            default_model: String::new(),
            max_tokens: 0,
            temperature: Temperature { bits: 0 },
            timeout_seconds: 0,
            retry_attempts: 0,
            providers: Vec::new(),
        };
        match src {
            Some(i) => {
                let c = &app.llm[i];
                assert(cs[i as int] == c@);
                llm.primary_provider = copy_str(c.provider.as_str());
                llm.openai_api_key = copy_str(c.api_key.as_str());
                llm.api_base_url = if c.api_base.as_str().is_empty() {
                    super::types::default_api_base_url()
                } else {
                    copy_str(c.api_base.as_str())
                };
                llm.default_model = copy_str(c.model.as_str());
                llm.max_tokens = c.max_tokens;
                llm.temperature = c.temperature;
            },
            None => {},
        }
        if llm.temperature.is_zero() {
            llm.temperature = default_temperature();
        }
        let mut providers: Vec<UiLlmProviderConfig> = Vec::new();
        let mut k: usize = 0;
        while k < app.llm.len()
            invariant
                k <= app.llm@.len(),
                cs == app@.llm,
                providers@.len() == k,
                forall|j: int| 0 <= j < k ==> (#[trigger] providers@[j])@ == projected_card(cs[j]),
            decreases app.llm@.len() - k,
        {
            let c = &app.llm[k];
            assert(cs[k as int] == c@);
            providers.push(
                UiLlmProviderConfig {
                    provider: copy_str(c.provider.as_str()),
                    api_key: copy_str(c.api_key.as_str()),
                    api_base_url: copy_str(c.api_base.as_str()),
                    default_model: copy_str(c.model.as_str()),
                    max_tokens: c.max_tokens,
                    temperature: c.temperature,
                    timeout_seconds: 60,
                    retry_attempts: 3,
                    disabled: Some(c.disabled),
                    disable_thinking: c.disable_thinking,
                },
            );
            k = k + 1;
        }
        assert(ui_provider_views(providers@) =~= cs.map_values(|c: LlmConfigView| projected_card(c)));
        llm.providers = providers;
        let cap: usize = match app.max_concurrent_llm_calls {
            Some(v) => v,
            None => 5,
        };
        let r = UiConfig {
            gitlab: UiGitLabConfig::default(),
            llm,
            rules: UiRulesConfig {
                min_score: 75,
                block_on_critical: false,
                auto_comment_on_pass: false,
                comment_template: String::new(),
                excluded_patterns: Vec::new(),
                required_experts: Vec::new(),
                max_review_duration_seconds: 0,
            },
            advanced: UiAdvancedConfig {
                log_level: String::new(),
                log_retention_days: 0,
                sse_heartbeat_interval: 0,
                max_concurrent_reviews: #[verifier::truncate] (cap as u32),
                request_timeout: 0,
                enable_metrics: true,
                debug_mode: false,
            },
            git_platforms: Vec::new(),
            aggregated: None,
        };
        proof {
            assert(r@.gitlab.url =~= Seq::<char>::empty());
            assert(r@.gitlab.api_token =~= Seq::<char>::empty());
            assert(r@.gitlab.webhook_secret =~= Seq::<char>::empty());
            assert(r@.gitlab.webhook_signing_secret =~= Seq::<char>::empty());
            assert(r@.gitlab.default_project =~= Seq::<char>::empty());
            assert(r@.gitlab.mr_label =~= Seq::<char>::empty());
            assert(r@.rules.excluded_patterns =~= Seq::<Seq<char>>::empty());
            assert(r@.rules.required_experts =~= Seq::<Seq<char>>::empty());
            assert(r@.git_platforms =~= Seq::<crate::config::types::UiGitPlatformView>::empty());
        }
        r
    }
}

} // verus!
