//! The UI projection of the configuration (`GET /config` / `PUT /config`)
//! and its documented defaults.

use vstd::prelude::*;
use crate::models::{copy_string_list, string_views, Temperature};
use crate::text::copy_str;

verus! {

/// Sentinel masking a configured secret in `GET /config`; on save it means
/// "leave the stored value unchanged".
pub const API_KEY_MASK: &'static str = "***";

/// The UI's explicit "clear this secret" value for git platform secrets
/// (blank and the mask both mean "keep").
pub const CLEAR_SECRET_SENTINEL: &'static str = "__CLEAR__";

/// `API_KEY_MASK` as characters.
pub open spec fn mask_spec() -> Seq<char> {
    seq!['*', '*', '*']
}

/// `CLEAR_SECRET_SENTINEL` as characters.
pub open spec fn clear_sentinel_spec() -> Seq<char> {
    "__CLEAR__"@
}

/// A fresh `String` holding the mask sentinel.
pub fn mask_string() -> (s: String)
    ensures
        s@ == mask_spec(),
{
    let s = String::from_str("***");
    proof {
        reveal_strlit("***");
        assert("***"@ =~= mask_spec());
    }
    s
}

/// The legacy GitLab section.
#[derive(Debug)]
pub struct UiGitLabConfig {
    pub url: String,
    pub api_token: String,
    pub webhook_secret: String,
    pub webhook_signing_secret: String,
    pub default_project: String,
    pub mr_label: String,
    pub auto_review: bool,
}

pub struct UiGitLabView {
    pub url: Seq<char>,
    pub api_token: Seq<char>,
    pub webhook_secret: Seq<char>,
    pub webhook_signing_secret: Seq<char>,
    pub default_project: Seq<char>,
    pub mr_label: Seq<char>,
    pub auto_review: bool,
}

impl View for UiGitLabConfig {
    type V = UiGitLabView;

    open spec fn view(&self) -> UiGitLabView {
        UiGitLabView {
            url: self.url@,
            api_token: self.api_token@,
            webhook_secret: self.webhook_secret@,
            webhook_signing_secret: self.webhook_signing_secret@,
            default_project: self.default_project@,
            mr_label: self.mr_label@,
            auto_review: self.auto_review,
        }
    }
}

impl UiGitLabConfig {
    /// An equal copy.
    pub fn copy(&self) -> (r: Self)
        ensures
            r@ == self@,
    {
        UiGitLabConfig {
            url: copy_str(self.url.as_str()),
            api_token: copy_str(self.api_token.as_str()),
            webhook_secret: copy_str(self.webhook_secret.as_str()),
            webhook_signing_secret: copy_str(self.webhook_signing_secret.as_str()),
            default_project: copy_str(self.default_project.as_str()),
            mr_label: copy_str(self.mr_label.as_str()),
            auto_review: self.auto_review,
        }
    }
}

impl Default for UiGitLabConfig {
    /// Every field empty / false.
    fn default() -> (r: Self)
        ensures
            r@ == empty_gitlab_view(),
    {
        UiGitLabConfig {
            url: String::new(),
            api_token: String::new(),
            webhook_secret: String::new(),
            webhook_signing_secret: String::new(),
            default_project: String::new(),
            mr_label: String::new(),
            auto_review: false,
        }
    }
}

/// One provider card as the UI edits it.
#[derive(Debug)]
pub struct UiLlmProviderConfig {
    pub provider: String,
    pub api_key: String,
    pub api_base_url: String,
    pub default_model: String,
    pub max_tokens: u32,
    pub temperature: Temperature,
    pub timeout_seconds: u32,
    pub retry_attempts: u32,
    /// `None` when the submission omitted the flag (keep the stored one).
    pub disabled: Option<bool>,
    /// `None` when omitted (keep the stored one, itself possibly unset).
    pub disable_thinking: Option<bool>,
}

pub struct UiLlmProviderView {
    pub provider: Seq<char>,
    pub api_key: Seq<char>,
    pub api_base_url: Seq<char>,
    pub default_model: Seq<char>,
    pub max_tokens: u32,
    pub temperature: Temperature,
    pub timeout_seconds: u32,
    pub retry_attempts: u32,
    pub disabled: Option<bool>,
    pub disable_thinking: Option<bool>,
}

impl View for UiLlmProviderConfig {
    type V = UiLlmProviderView;

    open spec fn view(&self) -> UiLlmProviderView {
        UiLlmProviderView {
            provider: self.provider@,
            api_key: self.api_key@,
            api_base_url: self.api_base_url@,
            default_model: self.default_model@,
            max_tokens: self.max_tokens,
            temperature: self.temperature,
            timeout_seconds: self.timeout_seconds,
            retry_attempts: self.retry_attempts,
            disabled: self.disabled,
            disable_thinking: self.disable_thinking,
        }
    }
}

/// The views of a list of provider cards.
pub open spec fn ui_provider_views(v: Seq<UiLlmProviderConfig>) -> Seq<UiLlmProviderView> {
    v.map_values(|c: UiLlmProviderConfig| c@)
}

/// The LLM section: the legacy scalar mirror of the primary plus the cards.
#[derive(Debug)]
pub struct UiLlmConfig {
    pub primary_provider: String,
    pub openai_api_key: String,
    pub api_base_url: String,
    pub default_model: String,
    pub max_tokens: u32,
    pub temperature: Temperature,
    pub timeout_seconds: u32,
    pub retry_attempts: u32,
    pub providers: Vec<UiLlmProviderConfig>,
}

pub struct UiLlmView {
    pub primary_provider: Seq<char>,
    pub openai_api_key: Seq<char>,
    pub api_base_url: Seq<char>,
    pub default_model: Seq<char>,
    pub max_tokens: u32,
    pub temperature: Temperature,
    pub timeout_seconds: u32,
    pub retry_attempts: u32,
    pub providers: Seq<UiLlmProviderView>,
}

impl View for UiLlmConfig {
    type V = UiLlmView;

    open spec fn view(&self) -> UiLlmView {
        UiLlmView {
            primary_provider: self.primary_provider@,
            openai_api_key: self.openai_api_key@,
            api_base_url: self.api_base_url@,
            default_model: self.default_model@,
            max_tokens: self.max_tokens,
            temperature: self.temperature,
            timeout_seconds: self.timeout_seconds,
            retry_attempts: self.retry_attempts,
            providers: ui_provider_views(self.providers@),
        }
    }
}

/// Review rules.
#[derive(Debug)]
pub struct UiRulesConfig {
    pub min_score: u32,
    pub block_on_critical: bool,
    pub auto_comment_on_pass: bool,
    pub comment_template: String,
    pub excluded_patterns: Vec<String>,
    pub required_experts: Vec<String>,
    pub max_review_duration_seconds: u32,
}

pub struct UiRulesView {
    pub min_score: u32,
    pub block_on_critical: bool,
    pub auto_comment_on_pass: bool,
    pub comment_template: Seq<char>,
    pub excluded_patterns: Seq<Seq<char>>,
    pub required_experts: Seq<Seq<char>>,
    pub max_review_duration_seconds: u32,
}

impl View for UiRulesConfig {
    type V = UiRulesView;

    open spec fn view(&self) -> UiRulesView {
        UiRulesView {
            min_score: self.min_score,
            block_on_critical: self.block_on_critical,
            auto_comment_on_pass: self.auto_comment_on_pass,
            comment_template: self.comment_template@,
            excluded_patterns: string_views(self.excluded_patterns@),
            required_experts: string_views(self.required_experts@),
            max_review_duration_seconds: self.max_review_duration_seconds,
        }
    }
}

/// Advanced settings.
#[derive(Debug)]
pub struct UiAdvancedConfig {
    pub log_level: String,
    pub log_retention_days: u32,
    pub sse_heartbeat_interval: u32,
    pub max_concurrent_reviews: u32,
    pub request_timeout: u32,
    pub enable_metrics: bool,
    pub debug_mode: bool,
}

pub struct UiAdvancedView {
    pub log_level: Seq<char>,
    pub log_retention_days: u32,
    pub sse_heartbeat_interval: u32,
    pub max_concurrent_reviews: u32,
    pub request_timeout: u32,
    pub enable_metrics: bool,
    pub debug_mode: bool,
}

impl View for UiAdvancedConfig {
    type V = UiAdvancedView;

    open spec fn view(&self) -> UiAdvancedView {
        UiAdvancedView {
            log_level: self.log_level@,
            log_retention_days: self.log_retention_days,
            sse_heartbeat_interval: self.sse_heartbeat_interval,
            max_concurrent_reviews: self.max_concurrent_reviews,
            request_timeout: self.request_timeout,
            enable_metrics: self.enable_metrics,
            debug_mode: self.debug_mode,
        }
    }
}

/// One git platform entry as the UI edits it (secrets masked on the way out).
#[derive(Debug)]
pub struct UiGitPlatformConfig {
    pub id: String,
    pub name: String,
    pub platform_type: String,
    pub base_url: String,
    pub internal_base_url: String,
    pub token: String,
    pub webhook_secret: String,
    pub webhook_signing_secret: String,
    pub allowed_projects: Vec<String>,
}

pub struct UiGitPlatformView {
    pub id: Seq<char>,
    pub name: Seq<char>,
    pub platform_type: Seq<char>,
    pub base_url: Seq<char>,
    pub internal_base_url: Seq<char>,
    pub token: Seq<char>,
    pub webhook_secret: Seq<char>,
    pub webhook_signing_secret: Seq<char>,
    pub allowed_projects: Seq<Seq<char>>,
}

impl View for UiGitPlatformConfig {
    type V = UiGitPlatformView;

    open spec fn view(&self) -> UiGitPlatformView {
        UiGitPlatformView {
            id: self.id@,
            name: self.name@,
            platform_type: self.platform_type@,
            base_url: self.base_url@,
            internal_base_url: self.internal_base_url@,
            token: self.token@,
            webhook_secret: self.webhook_secret@,
            webhook_signing_secret: self.webhook_signing_secret@,
            allowed_projects: string_views(self.allowed_projects@),
        }
    }
}

/// The views of a list of UI git platform entries.
pub open spec fn ui_platform_views(v: Seq<UiGitPlatformConfig>) -> Seq<UiGitPlatformView> {
    v.map_values(|c: UiGitPlatformConfig| c@)
}

/// The whole UI projection.
#[derive(Debug)]
pub struct UiConfig {
    pub gitlab: UiGitLabConfig,
    pub llm: UiLlmConfig,
    pub rules: UiRulesConfig,
    pub advanced: UiAdvancedConfig,
    pub git_platforms: Vec<UiGitPlatformConfig>,
    /// The aggregated-report toggle; `None` when never decided.
    pub aggregated: Option<bool>,
}

pub struct UiConfigView {
    pub gitlab: UiGitLabView,
    pub llm: UiLlmView,
    pub rules: UiRulesView,
    pub advanced: UiAdvancedView,
    pub git_platforms: Seq<UiGitPlatformView>,
    pub aggregated: Option<bool>,
}

impl View for UiConfig {
    type V = UiConfigView;

    open spec fn view(&self) -> UiConfigView {
        UiConfigView {
            gitlab: self.gitlab@,
            llm: self.llm@,
            rules: self.rules@,
            advanced: self.advanced@,
            git_platforms: ui_platform_views(self.git_platforms@),
            aggregated: self.aggregated,
        }
    }
}

impl UiLlmProviderConfig {
    /// An equal copy.
    pub fn copy(&self) -> (r: Self)
        ensures
            r@ == self@,
    {
        UiLlmProviderConfig {
            provider: copy_str(self.provider.as_str()),
            api_key: copy_str(self.api_key.as_str()),
            api_base_url: copy_str(self.api_base_url.as_str()),
            default_model: copy_str(self.default_model.as_str()),
            max_tokens: self.max_tokens,
            temperature: self.temperature,
            timeout_seconds: self.timeout_seconds,
            retry_attempts: self.retry_attempts,
            disabled: self.disabled,
            disable_thinking: self.disable_thinking,
        }
    }
}

impl UiGitPlatformConfig {
    /// An equal copy.
    pub fn copy(&self) -> (r: Self)
        ensures
            r@ == self@,
    {
        UiGitPlatformConfig {
            id: copy_str(self.id.as_str()),
            name: copy_str(self.name.as_str()),
            platform_type: copy_str(self.platform_type.as_str()),
            base_url: copy_str(self.base_url.as_str()),
            internal_base_url: copy_str(self.internal_base_url.as_str()),
            token: copy_str(self.token.as_str()),
            webhook_secret: copy_str(self.webhook_secret.as_str()),
            webhook_signing_secret: copy_str(self.webhook_signing_secret.as_str()),
            allowed_projects: copy_string_list(&self.allowed_projects),
        }
    }
}

impl UiLlmConfig {
    /// An equal copy.
    pub fn copy(&self) -> (r: Self)
        ensures
            r@ == self@,
    {
        let mut providers: Vec<UiLlmProviderConfig> = Vec::new();
        let mut i: usize = 0;
        while i < self.providers.len()
            invariant
                i <= self.providers@.len(),
                providers@.len() == i,
                forall|k: int| 0 <= k < i ==> (#[trigger] providers@[k])@ == self.providers@[k]@,
            decreases self.providers@.len() - i,
        {
            providers.push(self.providers[i].copy());
            i = i + 1;
        }
        assert(ui_provider_views(providers@) =~= ui_provider_views(self.providers@));
        UiLlmConfig {
            primary_provider: copy_str(self.primary_provider.as_str()),
            openai_api_key: copy_str(self.openai_api_key.as_str()),
            api_base_url: copy_str(self.api_base_url.as_str()),
            default_model: copy_str(self.default_model.as_str()),
            max_tokens: self.max_tokens,
            temperature: self.temperature,
            timeout_seconds: self.timeout_seconds,
            retry_attempts: self.retry_attempts,
            providers,
        }
    }
}

impl UiRulesConfig {
    /// An equal copy.
    pub fn copy(&self) -> (r: Self)
        ensures
            r@ == self@,
    {
        UiRulesConfig {
            min_score: self.min_score,
            block_on_critical: self.block_on_critical,
            auto_comment_on_pass: self.auto_comment_on_pass,
            comment_template: copy_str(self.comment_template.as_str()),
            excluded_patterns: copy_string_list(&self.excluded_patterns),
            required_experts: copy_string_list(&self.required_experts),
            max_review_duration_seconds: self.max_review_duration_seconds,
        }
    }
}

impl UiAdvancedConfig {
    /// An equal copy.
    pub fn copy(&self) -> (r: Self)
        ensures
            r@ == self@,
    {
        UiAdvancedConfig {
            log_level: copy_str(self.log_level.as_str()),
            log_retention_days: self.log_retention_days,
            sse_heartbeat_interval: self.sse_heartbeat_interval,
            max_concurrent_reviews: self.max_concurrent_reviews,
            request_timeout: self.request_timeout,
            enable_metrics: self.enable_metrics,
            debug_mode: self.debug_mode,
        }
    }
}

/// An equal copy of a UI platform list.
pub fn copy_ui_platform_list(v: &Vec<UiGitPlatformConfig>) -> (r: Vec<UiGitPlatformConfig>)
    ensures
        ui_platform_views(r@) == ui_platform_views(v@),
{
    let mut r: Vec<UiGitPlatformConfig> = Vec::new();
    let mut i: usize = 0;
    while i < v.len()
        invariant
            i <= v@.len(),
            r@.len() == i,
            forall|k: int| 0 <= k < i ==> (#[trigger] r@[k])@ == v@[k]@,
        decreases v@.len() - i,
    {
        r.push(v[i].copy());
        i = i + 1;
    }
    assert(ui_platform_views(r@) =~= ui_platform_views(v@));
    r
}

impl UiConfig {
    /// An equal copy.
    pub fn copy(&self) -> (r: Self)
        ensures
            r@ == self@,
    {
        UiConfig {
            gitlab: self.gitlab.copy(),
            llm: self.llm.copy(),
            rules: self.rules.copy(),
            advanced: self.advanced.copy(),
            git_platforms: copy_ui_platform_list(&self.git_platforms),
            aggregated: self.aggregated,
        }
    }
}

// ── documented defaults ──

pub fn default_max_tokens() -> (r: u32)
    ensures
        r == 4096,
{
    4096
}

/// The default OpenAI-compatible API base.
pub open spec fn default_api_base_spec() -> Seq<char> {
    "https://api.openai.com/v1"@
}

pub fn default_api_base_url() -> (r: String)
    ensures
        r@ == default_api_base_spec(),
{
    String::from_str("https://api.openai.com/v1")
}

/// `0.7` as an `f32` bit pattern.
pub open spec fn default_temperature_spec() -> Temperature {
    Temperature { bits: 0x3F33_3333 }
}

pub fn default_temperature() -> (r: Temperature)
    ensures
        r == default_temperature_spec(),
{
    Temperature { bits: 0x3F33_3333 }
}

pub fn default_timeout_seconds() -> (r: u32)
    ensures
        r == 60,
{
    60
}

pub fn default_retry_attempts() -> (r: u32)
    ensures
        r == 3,
{
    3
}

pub fn default_min_score() -> (r: u32)
    ensures
        r == 75,
{
    75
}

pub open spec fn default_comment_template_spec() -> Seq<char> {
    "Code review completed. Overall score: {{score}}/100. {{summary}}"@
}

pub fn default_comment_template() -> (r: String)
    ensures
        r@ == default_comment_template_spec(),
{
    String::from_str("Code review completed. Overall score: {{score}}/100. {{summary}}")
}

pub open spec fn default_required_experts_spec() -> Seq<Seq<char>> {
    seq!["Security"@, "Performance"@, "Quality"@]
}

pub fn default_required_experts() -> (r: Vec<String>)
    ensures
        string_views(r@) == default_required_experts_spec(),
{
    let mut v: Vec<String> = Vec::new();
    v.push(String::from_str("Security"));
    v.push(String::from_str("Performance"));
    v.push(String::from_str("Quality"));
    assert(string_views(v@) =~= default_required_experts_spec());
    v
}

pub fn default_max_review_duration_seconds() -> (r: u32)
    ensures
        r == 300,
{
    300
}

pub open spec fn default_log_level_spec() -> Seq<char> {
    "info"@
}

pub fn default_log_level() -> (r: String)
    ensures
        r@ == default_log_level_spec(),
{
    String::from_str("info")
}

pub fn default_log_retention_days() -> (r: u32)
    ensures
        r == 30,
{
    30
}

pub fn default_sse_heartbeat_interval() -> (r: u32)
    ensures
        r == 15,
{
    15
}

pub fn default_max_concurrent_reviews() -> (r: u32)
    ensures
        r == 5,
{
    5
}

pub fn default_request_timeout() -> (r: u32)
    ensures
        r == 120,
{
    120
}

pub fn default_enable_metrics() -> (r: bool)
    ensures
        r,
{
    true
}

/// The all-empty GitLab section.
pub open spec fn empty_gitlab_view() -> UiGitLabView {
    UiGitLabView {
        url: Seq::empty(),
        api_token: Seq::empty(),
        webhook_secret: Seq::empty(),
        webhook_signing_secret: Seq::empty(),
        default_project: Seq::empty(),
        mr_label: Seq::empty(),
        auto_review: false,
    }
}

/// The all-empty provider card.
pub open spec fn empty_provider_view() -> UiLlmProviderView {
    UiLlmProviderView {
        provider: Seq::empty(),
        api_key: Seq::empty(),
        api_base_url: Seq::empty(),
        default_model: Seq::empty(),
        max_tokens: 0,
        temperature: Temperature { bits: 0 },
        timeout_seconds: 0,
        retry_attempts: 0,
        disabled: None,
        disable_thinking: None,
    }
}

/// The all-empty LLM section.
pub open spec fn empty_llm_view() -> UiLlmView {
    UiLlmView {
        primary_provider: Seq::empty(),
        openai_api_key: Seq::empty(),
        api_base_url: Seq::empty(),
        default_model: Seq::empty(),
        max_tokens: 0,
        temperature: Temperature { bits: 0 },
        timeout_seconds: 0,
        retry_attempts: 0,
        providers: Seq::empty(),
    }
}

/// The all-empty rules section.
pub open spec fn empty_rules_view() -> UiRulesView {
    UiRulesView {
        min_score: 0,
        block_on_critical: false,
        auto_comment_on_pass: false,
        comment_template: Seq::empty(),
        excluded_patterns: Seq::empty(),
        required_experts: Seq::empty(),
        max_review_duration_seconds: 0,
    }
}

/// The all-empty advanced section.
pub open spec fn empty_advanced_view() -> UiAdvancedView {
    UiAdvancedView {
        log_level: Seq::empty(),
        log_retention_days: 0,
        sse_heartbeat_interval: 0,
        max_concurrent_reviews: 0,
        request_timeout: 0,
        enable_metrics: false,
        debug_mode: false,
    }
}

/// The all-empty projection (every section empty, no platform).
pub open spec fn empty_ui_view() -> UiConfigView {
    UiConfigView {
        gitlab: empty_gitlab_view(),
        llm: empty_llm_view(),
        rules: empty_rules_view(),
        advanced: empty_advanced_view(),
        git_platforms: Seq::empty(),
        aggregated: None,
    }
}

impl Default for UiLlmProviderConfig {
    fn default() -> (r: Self)
        ensures
            r@ == empty_provider_view(),
    {
        UiLlmProviderConfig {
            provider: String::new(),
            api_key: String::new(),
            api_base_url: String::new(),
            default_model: String::new(),
            max_tokens: 0,
            temperature: Temperature { bits: 0 },
            timeout_seconds: 0,
            retry_attempts: 0,
            disabled: None,
            disable_thinking: None,
        }
    }
}

impl Default for UiLlmConfig {
    fn default() -> (r: Self)
        ensures
            r@ == empty_llm_view(),
    {
        let r = UiLlmConfig {
            primary_provider: String::new(),
            openai_api_key: String::new(),
            api_base_url: String::new(),
            default_model: String::new(),
            max_tokens: 0,
            temperature: Temperature { bits: 0 },
            timeout_seconds: 0,
            retry_attempts: 0,
            providers: Vec::new(),
        };
        assert(r@.providers =~= Seq::<UiLlmProviderView>::empty());
        r
    }
}

impl Default for UiRulesConfig {
    fn default() -> (r: Self)
        ensures
            r@ == empty_rules_view(),
    {
        let r = UiRulesConfig {
            min_score: 0,
            block_on_critical: false,
            auto_comment_on_pass: false,
            comment_template: String::new(),
            excluded_patterns: Vec::new(),
            required_experts: Vec::new(),
            max_review_duration_seconds: 0,
        };
        assert(r@.excluded_patterns =~= Seq::<Seq<char>>::empty());
        assert(r@.required_experts =~= Seq::<Seq<char>>::empty());
        r
    }
}

impl Default for UiAdvancedConfig {
    fn default() -> (r: Self)
        ensures
            r@ == empty_advanced_view(),
    {
        UiAdvancedConfig {
            log_level: String::new(),
            log_retention_days: 0,
            sse_heartbeat_interval: 0,
            max_concurrent_reviews: 0,
            request_timeout: 0,
            enable_metrics: false,
            debug_mode: false,
        }
    }
}

impl Default for UiConfig {
    fn default() -> (r: Self)
        ensures
            r@ == empty_ui_view(),
    {
        let r = UiConfig {
            gitlab: UiGitLabConfig::default(),
            llm: UiLlmConfig::default(),
            rules: UiRulesConfig::default(),
            advanced: UiAdvancedConfig::default(),
            git_platforms: Vec::new(),
            aggregated: None,
        };
        assert(r@.git_platforms =~= Seq::<UiGitPlatformView>::empty());
        r
    }
}

} // verus!
