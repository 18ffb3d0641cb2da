//! Applying a configuration update to the in-memory state: the shared core
//! of `PUT /config` and of the startup replay of the persisted UI state.
//!
//! The update is validated before anything changes: a rejected update leaves
//! the state untouched. Secrets follow the masking rules (`***` keeps,
//! empty clears, a real value replaces) and the projection the UI reads back
//! never carries a live secret.

use vstd::prelude::*;
use vstd::utf8::encode_utf8;
use crate::git_health::{base_url_set, GitHealthStore};
use crate::json::JsonValue;
use crate::secrets::{base64_standard_decode, decode_base64};
use crate::llm_health::{live_fingerprints, LlmHealthStore};
use crate::models::{
    copy_llm_list, copy_platform_list, copy_string_list, llm_views, platform_views, AppConfig, AppConfigView,
    GitPlatformConfig, GitPlatformView, LLMConfig, LlmConfigView,
};
use crate::text::{copy_str, starts_with, starts_with_spec, str_eq, suffix_from};
use super::put::{resolve_git_platforms, resolve_llm_section, resolved_platforms, resolved_set, written_back_llm, uuid_parses, ApplyError};
use super::types::{
    mask_spec, mask_string, ui_platform_views, UiConfig, UiConfigView, UiGitLabConfig, UiGitLabView,
    UiGitPlatformConfig, UiGitPlatformView, UiLlmView,
};

verus! {

/// The GitLab settings the webhook handler and the review client read at
/// runtime.
#[derive(Debug)]
pub struct GitLabRuntimeConfig {
    pub token: String,
    pub webhook_secret: String,
    pub signing_secret: Option<String>,
    /// The decoded `whsec_` signing key, when the secret carries one.
    pub signing_key: Option<Vec<u8>>,
}

pub struct GitLabRuntimeView {
    pub token: Seq<char>,
    pub webhook_secret: Seq<char>,
    pub signing_secret: Option<Seq<char>>,
    pub signing_key: Option<Seq<u8>>,
}

impl View for GitLabRuntimeConfig {
    type V = GitLabRuntimeView;

    open spec fn view(&self) -> GitLabRuntimeView {
        GitLabRuntimeView {
            token: self.token@,
            webhook_secret: self.webhook_secret@,
            signing_secret: match self.signing_secret {
                Some(s) => Some(s@),
                None => None,
            },
            signing_key: match self.signing_key {
                Some(k) => Some(k@),
                None => None,
            },
        }
    }
}

/// The token a submission resolves to: empty clears, the mask keeps the
/// stored one, anything else replaces it.
pub open spec fn resolved_token(stored: Seq<char>, submitted: Seq<char>) -> Seq<char> {
    if submitted.len() == 0 {
        Seq::empty()
    } else if submitted == mask_spec() {
        stored
    } else {
        submitted
    }
}

/// The signing key a `whsec_<base64>` secret carries.
pub open spec fn signing_key_of(secret: Seq<char>) -> Option<Seq<u8>> {
    if starts_with_spec(secret, "whsec_"@) {
        base64_standard_decode(encode_utf8(secret.subrange(6, secret.len() as int)))
    } else {
        None
    }
}

/// The runtime GitLab settings after a UI GitLab section is applied.
pub open spec fn gitlab_runtime_after(rt: GitLabRuntimeView, ui: UiGitLabView) -> GitLabRuntimeView {
    GitLabRuntimeView {
        token: resolved_token(rt.token, ui.api_token),
        webhook_secret: if ui.webhook_secret.len() > 0 {
            ui.webhook_secret
        } else {
            rt.webhook_secret
        },
        signing_secret: if ui.webhook_signing_secret.len() > 0 {
            Some(ui.webhook_signing_secret)
        } else {
            rt.signing_secret
        },
        signing_key: if ui.webhook_signing_secret.len() > 0 {
            signing_key_of(ui.webhook_signing_secret)
        } else {
            rt.signing_key
        },
    }
}

/// Sync the UI GitLab section into the runtime settings; returns the
/// resolved token (empty = unset).
pub fn apply_gitlab_runtime_config(gl_rt: &mut GitLabRuntimeConfig, ui_gl: &UiGitLabConfig) -> (r: String)
    ensures
        final(gl_rt)@ == gitlab_runtime_after(old(gl_rt)@, ui_gl@),
        r@ == resolved_token(old(gl_rt)@.token, ui_gl@.api_token),
{
    let submitted = ui_gl.api_token.as_str();
    let new_token = if submitted.is_empty() {
        String::new()
    } else if str_eq(submitted, "***") {
        proof {
            reveal_strlit("***");
            assert("***"@ =~= mask_spec());
        }
        copy_str(gl_rt.token.as_str())
    } else {
        proof {
            reveal_strlit("***");
            assert("***"@ =~= mask_spec());
        }
        copy_str(submitted)
    };
    gl_rt.token = copy_str(new_token.as_str());
    if !ui_gl.webhook_secret.as_str().is_empty() {
        gl_rt.webhook_secret = copy_str(ui_gl.webhook_secret.as_str());
    }
    if !ui_gl.webhook_signing_secret.as_str().is_empty() {
        let s = ui_gl.webhook_signing_secret.as_str();
        let key = if starts_with(s, "whsec_") {
            proof {
                reveal_strlit("whsec_");
            }
            let rest = suffix_from(s, 6);
            decode_base64(rest.as_str())
        } else {
            None
        };
        gl_rt.signing_secret = Some(copy_str(s));
        gl_rt.signing_key = key;
    }
    new_token
}

/// `***` for a set secret, empty for an unset one.
pub open spec fn mask_or_empty_spec(secret: Seq<char>) -> Seq<char> {
    if secret.len() == 0 {
        Seq::empty()
    } else {
        mask_spec()
    }
}

/// The masked projection of a secret for the UI.
pub fn mask_or_empty(secret: &str) -> (r: String)
    ensures
        r@ == mask_or_empty_spec(secret@),
{
    if secret.is_empty() {
        String::new()
    } else {
        mask_string()
    }
}

/// The UI projection of a stored platform entry: secrets masked.
pub open spec fn masked_platform(p: GitPlatformView) -> UiGitPlatformView {
    UiGitPlatformView {
        id: p.id,
        name: p.name,
        platform_type: p.platform_type,
        base_url: p.base_url,
        internal_base_url: p.internal_base_url,
        token: mask_or_empty_spec(p.token),
        webhook_secret: mask_or_empty_spec(p.webhook_secret),
        webhook_signing_secret: mask_or_empty_spec(p.webhook_signing_secret),
        allowed_projects: p.allowed_projects,
    }
}

/// The masked projections of a platform list.
pub fn masked_platforms(ps: &Vec<GitPlatformConfig>) -> (r: Vec<UiGitPlatformConfig>)
    ensures
        ui_platform_views(r@) == platform_views(ps@).map_values(|p: GitPlatformView| masked_platform(p)),
{
    let mut out: Vec<UiGitPlatformConfig> = Vec::new();
    let mut i: usize = 0;
    while i < ps.len()
        invariant
            i <= ps@.len(),
            out@.len() == i,
            forall|k: int| 0 <= k < i ==> (#[trigger] out@[k])@ == masked_platform(ps@[k]@),
        decreases ps@.len() - i,
    {
        let p = &ps[i];
        out.push(
            UiGitPlatformConfig {
                id: copy_str(p.id.as_str()),
                name: copy_str(p.name.as_str()),
                platform_type: copy_str(p.platform_type.as_str()),
                base_url: copy_str(p.base_url.as_str()),
                internal_base_url: copy_str(p.internal_base_url.as_str()),
                token: mask_or_empty(p.token.as_str()),
                webhook_secret: mask_or_empty(p.webhook_secret.as_str()),
                webhook_signing_secret: mask_or_empty(p.webhook_signing_secret.as_str()),
                allowed_projects: copy_string_list(&p.allowed_projects),
            },
        );
        i = i + 1;
    }
    assert(ui_platform_views(out@) =~= platform_views(ps@).map_values(|p: GitPlatformView| masked_platform(p)));
    out
}

/// The legacy scalar keys of the `llm` section.
pub open spec fn legacy_scalar_key(k: Seq<char>) -> bool {
    k == "openaiApiKey"@ || k == "apiBaseUrl"@ || k == "defaultModel"@ || k == "maxTokens"@ || k == "temperature"@
        || k == "timeoutSeconds"@ || k == "retryAttempts"@
}

/// The value of the first member named `key`, if any.
pub open spec fn first_member(m: Seq<(String, JsonValue)>, key: Seq<char>) -> Option<JsonValue> {
    if exists|i: int| 0 <= i < m.len() && (#[trigger] m[i]).0@ == key {
        let i = choose|i: int|
            0 <= i < m.len() && (#[trigger] m[i]).0@ == key && forall|j: int| 0 <= j < i ==> (#[trigger] m[j]).0@ != key;
        Some(m[i].1)
    } else {
        None
    }
}

/// The request's `llm` object members, if it has one.
pub open spec fn llm_members(payload: JsonValue) -> Option<Seq<(String, JsonValue)>> {
    match payload {
        JsonValue::Object(m) => match first_member(m@, "llm"@) {
            Some(JsonValue::Object(l)) => Some(l@),
            _ => None,
        },
        _ => None,
    }
}

/// Whether the request's `llm` object states one of the legacy scalars.
pub open spec fn states_legacy_spec(payload: JsonValue) -> bool {
    match llm_members(payload) {
        Some(l) => exists|i: int| 0 <= i < l.len() && legacy_scalar_key(#[trigger] l[i].0@),
        None => false,
    }
}

/// Whether the request states the provider set: a `providers` member or a
/// legacy scalar in its `llm` object.
pub open spec fn states_set_spec(payload: JsonValue) -> bool {
    states_legacy_spec(payload) || match llm_members(payload) {
        Some(l) => first_member(l, "providers"@) is Some,
        None => false,
    }
}

/// A payload states the provider set only through its `llm` object: a
/// `providers` member or one of the legacy scalar keys there states it, and
/// nothing else does (a payload without an `llm` object, or whose `llm`
/// object holds neither, keeps the stored set); a stated legacy scalar
/// always states the set.
pub proof fn law_what_states_the_provider_set(payload: JsonValue)
    ensures
        states_legacy_spec(payload) ==> states_set_spec(payload),
        llm_members(payload) is None ==> !states_set_spec(payload) && !states_legacy_spec(payload),
        llm_members(payload) matches Some(l) ==> ((exists|i: int| 0 <= i < l.len() && (#[trigger] l[i]).0@ == "providers"@)
            ==> states_set_spec(payload)),
        llm_members(payload) matches Some(l) ==> ((forall|i: int|
            0 <= i < l.len() ==> !legacy_scalar_key((#[trigger] l[i]).0@) && l[i].0@ != "providers"@)
            ==> !states_set_spec(payload)),
{
}

fn find_member<'a>(m: &'a Vec<(String, JsonValue)>, key: &str) -> (r: Option<&'a JsonValue>)
    ensures
        match r {
            Some(v) => first_member(m@, key@) == Some(*v),
            None => first_member(m@, key@).is_none(),
        },
{
    let mut i: usize = 0;
    while i < m.len()
        invariant
            i <= m@.len(),
            forall|j: int| 0 <= j < i ==> (#[trigger] m@[j]).0@ != key@,
        decreases m@.len() - i,
    {
        if str_eq(m[i].0.as_str(), key) {
            proof {
                let w = choose|w: int|
                    0 <= w < m@.len() && (#[trigger] m@[w]).0@ == key@ && forall|j: int|
                        0 <= j < w ==> (#[trigger] m@[j]).0@ != key@;
                assert(m@[i as int].0@ == key@);
                assert(0 <= w < m@.len() && m@[w].0@ == key@ && forall|j: int| 0 <= j < w ==> (#[trigger] m@[j]).0@ != key@);
                if w < i {
                    assert(m@[w].0@ != key@);
                }
                if w > i {
                    assert(m@[i as int].0@ != key@);
                }
            }
            return Some(&m[i].1);
        }
        i = i + 1;
    }
    None
}

fn is_legacy_scalar_key(k: &str) -> (r: bool)
    ensures
        r == legacy_scalar_key(k@),
{
    str_eq(k, "openaiApiKey") || str_eq(k, "apiBaseUrl") || str_eq(k, "defaultModel") || str_eq(k, "maxTokens")
        || str_eq(k, "temperature") || str_eq(k, "timeoutSeconds") || str_eq(k, "retryAttempts")
}

/// What a request payload states about the provider set: `(states the
/// set, states a legacy scalar)`.
pub fn payload_flags(payload: &JsonValue) -> (r: (bool, bool))
    ensures
        r == (states_set_spec(*payload), states_legacy_spec(*payload)),
{
    match payload {
        JsonValue::Object(m) => match find_member(m, "llm") {
            Some(JsonValue::Object(l)) => {
                let mut legacy = false;
                let mut i: usize = 0;
                while i < l.len()
                    invariant
                        i <= l@.len(),
                        legacy == exists|j: int| 0 <= j < i && legacy_scalar_key(#[trigger] l@[j].0@),
                    decreases l@.len() - i,
                {
                    if is_legacy_scalar_key(l[i].0.as_str()) {
                        legacy = true;
                    }
                    i = i + 1;
                }
                let providers = match find_member(l, "providers") {
                    Some(_) => true,
                    None => false,
                };
                (legacy || providers, legacy)
            },
            _ => (false, false),
        },
        _ => (false, false),
    }
}

/// The in-memory state a configuration update changes.
#[derive(Debug)]
pub struct ConfigState {
    /// The projection `GET /config` serves.
    pub ui_config: UiConfig,
    /// The loaded backend configuration; `None` before it is loaded.
    pub app_config: Option<AppConfig>,
    /// The effective git platform set.
    pub git_platforms: Vec<GitPlatformConfig>,
    /// The effective provider set.
    pub llm_configs: Vec<LLMConfig>,
    pub llm_health: LlmHealthStore,
    pub git_health: GitHealthStore,
    pub gitlab_runtime: GitLabRuntimeConfig,
}

/// The request-resolved configuration an update produced (what persistence
/// stores): the submitted sets with kept secrets resolved, the resolved
/// GitLab secrets, and the masked projection.
#[derive(Debug)]
pub struct AppliedConfig {
    pub llm: Vec<LLMConfig>,
    pub git_platforms: Vec<GitPlatformConfig>,
    pub gitlab_token: String,
    pub gitlab_webhook_secret: String,
    pub gitlab_webhook_signing_secret: String,
    pub ui: UiConfig,
}

/// The provider set an update resolves to.
pub open spec fn new_llm_spec(stored: Seq<LlmConfigView>, body: UiConfigView, states_set: bool, states_legacy: bool) -> Seq<
    LlmConfigView,
> {
    if states_set {
        resolved_set(stored, body.llm, states_legacy)
    } else {
        stored
    }
}

/// The llm section of the projection after an update: the written-back
/// section when the update states the provider set, else the merged section
/// with its live keys masked (the stored projection never holds a live key).
pub open spec fn new_ui_llm_spec(stored: Seq<LlmConfigView>, body: UiConfigView, states_set: bool, states_legacy: bool) -> UiLlmView {
    if states_set {
        written_back_llm(stored, body.llm, states_legacy)
    } else {
        crate::config::masked_llm(body.llm)
    }
}

/// The loaded configuration's provider list (empty before it is loaded).
pub open spec fn stored_llm(app: Option<AppConfigView>) -> Seq<LlmConfigView> {
    match app {
        Some(a) => a.llm,
        None => Seq::empty(),
    }
}

/// The cap the projection shows when the update did not decide it.
pub open spec fn cap_in_force(app: AppConfigView) -> u32 {
    (match app.max_concurrent_llm_calls {
        Some(v) => v,
        None => 5usize,
    }) as u32
}

/// The loaded configuration after a successful update.
pub open spec fn app_after(app: AppConfigView, new_llm: Seq<LlmConfigView>, body: UiConfigView) -> AppConfigView {
    AppConfigView {
        llm: if new_llm.len() > 0 {
            new_llm
        } else {
            app.llm
        },
        max_concurrent_llm_calls: if body.advanced.max_concurrent_reviews > 0 {
            Some(body.advanced.max_concurrent_reviews as usize)
        } else {
            app.max_concurrent_llm_calls
        },
        max_team_size: if body.advanced.max_concurrent_reviews > 0 {
            Some(body.advanced.max_concurrent_reviews as usize)
        } else {
            app.max_team_size
        },
        report_aggregated: match body.aggregated {
            Some(a) => a,
            None => app.report_aggregated,
        },
    }
}

/// The projection stored after a successful update.
pub open spec fn ui_after(
    app: AppConfigView,
    body: UiConfigView,
    states_set: bool,
    states_legacy: bool,
    platforms: Seq<GitPlatformView>,
    token: Seq<char>,
) -> UiConfigView {
    UiConfigView {
        gitlab: UiGitLabView { api_token: mask_or_empty_spec(token), ..body.gitlab },
        llm: new_ui_llm_spec(app.llm, body, states_set, states_legacy),
        advanced: if body.advanced.max_concurrent_reviews > 0 {
            body.advanced
        } else {
            crate::config::types::UiAdvancedView { max_concurrent_reviews: cap_in_force(app), ..body.advanced }
        },
        git_platforms: platforms.map_values(|p: GitPlatformView| masked_platform(p)),
        ..body
    }
}

/// Whether the git platform submission of `body` resolves against the
/// stored set to `res`, for some choice of fresh ids.
pub open spec fn platforms_resolve_to(
    body: UiConfigView,
    existing: Seq<GitPlatformView>,
    res: Result<Seq<GitPlatformView>, Seq<char>>,
) -> bool {
    exists|fresh: Seq<Seq<char>>|
        #![trigger resolved_platforms(body.git_platforms, existing, fresh)]
        fresh.len() == body.git_platforms.len() && (forall|i: int| 0 <= i < fresh.len() ==> uuid_parses(#[trigger] fresh[i]))
            && resolved_platforms(body.git_platforms, existing, fresh) == res
}

/// What an update of `old` to `new` with `body` (stating the provider set
/// and the legacy scalars as flagged) amounts to, with `r` its result:
/// refused with 422 when a git platform entry is invalid and with 503 when
/// no configuration is loaded, leaving the state as it was; otherwise the
/// resolved sets, caches, GitLab runtime and projection below.
pub open spec fn apply_outcome(
    old: ConfigState,
    new: ConfigState,
    body: UiConfigView,
    states_set: bool,
    states_legacy: bool,
    r: Result<AppliedConfig, ApplyError>,
) -> bool {
    match r {
        Err(e) => new == old && ((e.status == 422 && platforms_resolve_to(
            body,
            platform_views(old.git_platforms@),
            Err(e.message@),
        )) || (e.status == 503 && e.message@ == "config not loaded"@ && old.app_config.is_none()
            && exists|ps: Seq<GitPlatformView>|
            platforms_resolve_to(body, platform_views(old.git_platforms@), Ok(ps)))),
        Ok(a) => {
            let old_app = old.app_config->0@;
            let new_llm = new_llm_spec(old_app.llm, body, states_set, states_legacy);
            let ps = platform_views(a.git_platforms@);
            &&& old.app_config is Some
            &&& platforms_resolve_to(body, platform_views(old.git_platforms@), Ok(ps))
            &&& llm_views(a.llm@) == new_llm
            &&& new.app_config matches Some(c) && c@ == app_after(old_app, new_llm, body)
            &&& platform_views(new.git_platforms@) == ps
            &&& llm_views(new.llm_configs@) == (if new_llm.len() > 0 {
                new_llm
            } else {
                llm_views(old.llm_configs@)
            })
            &&& new.git_health.outcomes() == old.git_health.outcomes().restrict(base_url_set(ps))
            &&& new.llm_health.cache() == old.llm_health.cache().restrict(
                live_fingerprints(llm_views(new.llm_configs@)),
            )
            &&& new.llm_health.ttl() == old.llm_health.ttl()
            &&& new.gitlab_runtime@ == gitlab_runtime_after(old.gitlab_runtime@, body.gitlab)
            &&& a.gitlab_token@ == new.gitlab_runtime@.token
            &&& a.gitlab_webhook_secret@ == new.gitlab_runtime@.webhook_secret
            &&& a.gitlab_webhook_signing_secret@ == (match new.gitlab_runtime@.signing_secret {
                Some(s) => s,
                None => Seq::empty(),
            })
            &&& new.ui_config@ == ui_after(
                old_app,
                body,
                states_set,
                states_legacy,
                ps,
                new.gitlab_runtime@.token,
            )
            &&& a.ui@ == new.ui_config@
        },
    }
}

/// Apply a UI configuration (already merged over the stored projection) to
/// the state. `states_set` / `states_legacy` say whether the request stated
/// the provider set and the legacy scalars (see [`payload_flags`]).
///
/// Refused with 422 when a git platform entry is invalid and with 503 when
/// no configuration is loaded; a refused update changes nothing.
#[verifier::rlimit(60)]
pub fn apply_ui_config(state: &mut ConfigState, body: UiConfig, states_set: bool, states_legacy: bool) -> (r: Result<
    AppliedConfig,
    ApplyError,
>)
    ensures
        apply_outcome(*old(state), *final(state), body@, states_set, states_legacy, r),

{
    let mut body = body;
    let existing_llm: Vec<LLMConfig> = match &state.app_config {
        Some(app) => copy_llm_list(&app.llm),
        None => Vec::new(),
    };
    let ghost body0 = body@;
    let new_llm = if states_set {
        resolve_llm_section(&mut body.llm, &existing_llm, states_legacy)
    } else {
        crate::config::mask_llm_keys(&mut body.llm);
        copy_llm_list(&existing_llm)
    };
    let new_platforms = match resolve_git_platforms(&body.git_platforms, &state.git_platforms) {
        Ok(v) => v,
        Err(m) => {
            return Err(ApplyError { status: 422, message: m });
        },
    };
    let mut app = match &state.app_config {
        Some(a) => a.copy(),
        None => {
            proof {
                assert(platforms_resolve_to(body0, platform_views(state.git_platforms@), Ok(platform_views(new_platforms@))));
            }
            return Err(ApplyError { status: 503, message: String::from_str("config not loaded") });
        },
    };
    if new_llm.len() > 0 {
        app.llm = copy_llm_list(&new_llm);
    }
    let caps = body.advanced.max_concurrent_reviews as usize;
    if caps > 0 {
        app.max_concurrent_llm_calls = Some(caps);
        app.max_team_size = Some(caps);
    } else {
        let in_force: usize = match app.max_concurrent_llm_calls {
            Some(v) => v,
            None => 5,
        };
        body.advanced.max_concurrent_reviews = #[verifier::truncate] (in_force as u32);
    }
    match body.aggregated {
        Some(a) => {
            app.report_aggregated = a;
        },
        None => {},
    }
    state.app_config = Some(app);
    state.git_platforms = copy_platform_list(&new_platforms);
    state.git_health.retain_live(&new_platforms);
    body.git_platforms = masked_platforms(&new_platforms);
    if new_llm.len() > 0 {
        state.llm_configs = copy_llm_list(&new_llm);
    }
    state.llm_health.retain_live(&state.llm_configs);
    let token = apply_gitlab_runtime_config(&mut state.gitlab_runtime, &body.gitlab);
    body.gitlab.api_token = mask_or_empty(token.as_str());
    let ui_copy = body.copy();
    state.ui_config = body;
    let signing = match &state.gitlab_runtime.signing_secret {
        Some(s) => copy_str(s.as_str()),
        None => String::new(),
    };
    Ok(AppliedConfig {
        llm: new_llm,
        git_platforms: new_platforms,
        gitlab_token: token,
        gitlab_webhook_secret: copy_str(state.gitlab_runtime.webhook_secret.as_str()),
        gitlab_webhook_signing_secret: signing,
        ui: ui_copy,
    })
}

/// A secret as the projection may hold it: unset, or the mask.
pub open spec fn not_live(secret: Seq<char>) -> bool {
    secret.len() == 0 || secret == mask_spec()
}

/// The stored projection never holds a live key: after any successful
/// update, whether or not it stated the provider set, the scalar LLM key,
/// every card's key, the GitLab token and every git platform secret in it
/// are unset or the mask.
pub proof fn law_updated_projection_holds_no_live_key(
    old: ConfigState,
    new: ConfigState,
    body: UiConfigView,
    states_set: bool,
    states_legacy: bool,
    r: Result<AppliedConfig, ApplyError>,
)
    requires
        apply_outcome(old, new, body, states_set, states_legacy, r),
        r is Ok,
    ensures
        not_live(new.ui_config@.llm.openai_api_key),
        forall|i: int| 0 <= i < new.ui_config@.llm.providers.len() ==> not_live(#[trigger] new.ui_config@.llm.providers[i].api_key),
        not_live(new.ui_config@.gitlab.api_token),
        forall|i: int| 0 <= i < new.ui_config@.git_platforms.len() ==> {
            let p = #[trigger] new.ui_config@.git_platforms[i];
            not_live(p.token) && not_live(p.webhook_secret) && not_live(p.webhook_signing_secret)
        },
{
}

/// A refused update changes nothing: the loaded configuration, both live
/// sets, the projection, both health caches and the GitLab runtime are as
/// they were. It is refused with 422 for an invalid git platform entry and
/// with 503 only when the configuration is not loaded.
pub proof fn law_refused_update_changes_nothing(
    old: ConfigState,
    new: ConfigState,
    body: UiConfigView,
    states_set: bool,
    states_legacy: bool,
    r: Result<AppliedConfig, ApplyError>,
)
    requires
        apply_outcome(old, new, body, states_set, states_legacy, r),
        r is Err,
    ensures
        new == old,
        r->Err_0.status == 422 || r->Err_0.status == 503,
        r->Err_0.status == 503 ==> old.app_config is None,
{
}

} // verus!
