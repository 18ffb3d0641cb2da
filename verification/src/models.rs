//! The backend-native configuration records the API layer manages: one LLM
//! provider card and one git platform entry.

use vstd::prelude::*;
use crate::text::copy_str;

verus! {

/// A temperature, held as the IEEE-754 binary32 bit pattern of the `f32`
/// the configuration carries. The logic here only stores, compares and
/// forwards it; arithmetic on it happens at the serialization boundary.
#[derive(Clone, Copy, Debug, PartialEq, Eq, Structural)]
pub struct Temperature {
    pub bits: u32,
}

impl Temperature {
    /// Whether the value is `0.0` (positive or negative zero).
    pub open spec fn is_zero_spec(self) -> bool {
        self.bits == 0 || self.bits == 0x8000_0000
    }

    /// Whether the value is `0.0` (positive or negative zero).
    pub fn is_zero(&self) -> (r: bool)
        ensures
            r == self.is_zero_spec(),
    {
        self.bits == 0 || self.bits == 0x8000_0000
    }
}

/// One configured LLM provider card.
#[derive(Debug)]
pub struct LLMConfig {
    pub provider: String,
    pub model: String,
    pub api_key: String,
    pub api_base: String,
    pub max_tokens: u32,
    pub temperature: Temperature,
    /// Unset means the flag is not sent to the provider.
    pub disable_thinking: Option<bool>,
    /// The administrative off switch: a disabled card keeps its config but
    /// is out of the provider chain and never probed.
    pub disabled: bool,
}

/// Value view of an [`LLMConfig`].
pub struct LlmConfigView {
    pub provider: Seq<char>,
    pub model: Seq<char>,
    pub api_key: Seq<char>,
    pub api_base: Seq<char>,
    pub max_tokens: u32,
    pub temperature: Temperature,
    pub disable_thinking: Option<bool>,
    pub disabled: bool,
}

impl View for LLMConfig {
    type V = LlmConfigView;

    open spec fn view(&self) -> LlmConfigView {
        LlmConfigView {
            provider: self.provider@,
            model: self.model@,
            api_key: self.api_key@,
            api_base: self.api_base@,
            max_tokens: self.max_tokens,
            temperature: self.temperature,
            disable_thinking: self.disable_thinking,
            disabled: self.disabled,
        }
    }
}

impl LLMConfig {
    /// An equal copy.
    pub fn copy(&self) -> (r: Self)
        ensures
            r@ == self@,
    {
        LLMConfig {
            provider: copy_str(self.provider.as_str()),
            model: copy_str(self.model.as_str()),
            api_key: copy_str(self.api_key.as_str()),
            api_base: copy_str(self.api_base.as_str()),
            max_tokens: self.max_tokens,
            temperature: self.temperature,
            disable_thinking: self.disable_thinking,
            disabled: self.disabled,
        }
    }
}

/// The views of a list of provider cards.
pub open spec fn llm_views(v: Seq<LLMConfig>) -> Seq<LlmConfigView> {
    v.map_values(|c: LLMConfig| c@)
}

/// An equal copy of a provider list.
pub fn copy_llm_list(v: &Vec<LLMConfig>) -> (r: Vec<LLMConfig>)
    ensures
        llm_views(r@) == llm_views(v@),
{
    let mut r: Vec<LLMConfig> = Vec::new();
    let mut i: usize = 0;
    while i < v.len()
        invariant
            i <= v@.len(),
            r@.len() == i,
            forall|k: int| 0 <= k < i ==> (#[trigger] r@[k])@ == v@[k]@,
        decreases v@.len() - i,
    {
        r.push(v[i].copy());
        i = i + 1;
    }
    assert(llm_views(r@) =~= llm_views(v@));
    r
}

/// An equal copy of a list of strings.
pub fn copy_string_list(v: &Vec<String>) -> (r: Vec<String>)
    ensures
        string_views(r@) == string_views(v@),
{
    let mut r: Vec<String> = Vec::new();
    let mut i: usize = 0;
    while i < v.len()
        invariant
            i <= v@.len(),
            r@.len() == i,
            forall|k: int| 0 <= k < i ==> (#[trigger] r@[k])@ == v@[k]@,
        decreases v@.len() - i,
    {
        r.push(copy_str(v[i].as_str()));
        i = i + 1;
    }
    assert(string_views(r@) =~= string_views(v@));
    r
}

/// The character sequences of a list of strings.
pub open spec fn string_views(v: Seq<String>) -> Seq<Seq<char>> {
    v.map_values(|s: String| s@)
}

/// One configured git platform instance.
#[derive(Debug)]
pub struct GitPlatformConfig {
    /// Stable identity of the entry (a UUID), independent of its name and URL.
    pub id: String,
    pub name: String,
    pub platform_type: String,
    pub base_url: String,
    /// Container-reachable address for review pulls; empty when unset.
    pub internal_base_url: String,
    pub token: String,
    pub webhook_secret: String,
    pub webhook_signing_secret: String,
    pub allowed_projects: Vec<String>,
}

/// Value view of a [`GitPlatformConfig`].
pub struct GitPlatformView {
    pub id: Seq<char>,
    pub name: Seq<char>,
    pub platform_type: Seq<char>,
    pub base_url: Seq<char>,
    pub internal_base_url: Seq<char>,
    pub token: Seq<char>,
    pub webhook_secret: Seq<char>,
    pub webhook_signing_secret: Seq<char>,
    pub allowed_projects: Seq<Seq<char>>,
}

impl View for GitPlatformConfig {
    type V = GitPlatformView;

    open spec fn view(&self) -> GitPlatformView {
        GitPlatformView {
            id: self.id@,
            name: self.name@,
            platform_type: self.platform_type@,
            base_url: self.base_url@,
            internal_base_url: self.internal_base_url@,
            token: self.token@,
            webhook_secret: self.webhook_secret@,
            webhook_signing_secret: self.webhook_signing_secret@,
            allowed_projects: string_views(self.allowed_projects@),
        }
    }
}

impl GitPlatformConfig {
    /// An equal copy.
    pub fn copy(&self) -> (r: Self)
        ensures
            r@ == self@,
    {
        GitPlatformConfig {
            id: copy_str(self.id.as_str()),
            name: copy_str(self.name.as_str()),
            platform_type: copy_str(self.platform_type.as_str()),
            base_url: copy_str(self.base_url.as_str()),
            internal_base_url: copy_str(self.internal_base_url.as_str()),
            token: copy_str(self.token.as_str()),
            webhook_secret: copy_str(self.webhook_secret.as_str()),
            webhook_signing_secret: copy_str(self.webhook_signing_secret.as_str()),
            allowed_projects: copy_string_list(&self.allowed_projects),
        }
    }
}

/// The views of a list of git platform entries.
pub open spec fn platform_views(v: Seq<GitPlatformConfig>) -> Seq<GitPlatformView> {
    v.map_values(|c: GitPlatformConfig| c@)
}

/// An equal copy of a platform list.
pub fn copy_platform_list(v: &Vec<GitPlatformConfig>) -> (r: Vec<GitPlatformConfig>)
    ensures
        platform_views(r@) == platform_views(v@),
{
    let mut r: Vec<GitPlatformConfig> = Vec::new();
    let mut i: usize = 0;
    while i < v.len()
        invariant
            i <= v@.len(),
            r@.len() == i,
            forall|k: int| 0 <= k < i ==> (#[trigger] r@[k])@ == v@[k]@,
        decreases v@.len() - i,
    {
        r.push(v[i].copy());
        i = i + 1;
    }
    assert(platform_views(r@) =~= platform_views(v@));
    r
}

/// The parts of the loaded backend configuration the API layer reads and
/// updates: the provider list, the two concurrency caps and the
/// aggregated-report flag.
#[derive(Debug)]
pub struct AppConfig {
    pub llm: Vec<LLMConfig>,
    pub max_concurrent_llm_calls: Option<usize>,
    pub max_team_size: Option<usize>,
    pub report_aggregated: bool,
}

pub struct AppConfigView {
    pub llm: Seq<LlmConfigView>,
    pub max_concurrent_llm_calls: Option<usize>,
    pub max_team_size: Option<usize>,
    pub report_aggregated: bool,
}

impl View for AppConfig {
    type V = AppConfigView;

    open spec fn view(&self) -> AppConfigView {
        AppConfigView {
            llm: llm_views(self.llm@),
            max_concurrent_llm_calls: self.max_concurrent_llm_calls,
            max_team_size: self.max_team_size,
            report_aggregated: self.report_aggregated,
        }
    }
}

impl AppConfig {
    /// An equal copy.
    pub fn copy(&self) -> (r: Self)
        ensures
            r@ == self@,
    {
        AppConfig {
            llm: copy_llm_list(&self.llm),
            max_concurrent_llm_calls: self.max_concurrent_llm_calls,
            max_team_size: self.max_team_size,
            report_aggregated: self.report_aggregated,
        }
    }
}

} // verus!
