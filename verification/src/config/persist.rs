//! Persistence of the UI-managed configuration: what is written (the user's
//! intent, never env/CLI-derived values), how git credentials are encrypted
//! at rest, and how a persisted state is replayed through the same update
//! path as `PUT /config`.

use vstd::prelude::*;
use crate::models::{
    copy_llm_list, copy_platform_list, copy_string_list, llm_views, platform_views, GitPlatformConfig,
    GitPlatformView, LLMConfig, LlmConfigView,
};
use crate::secrets::{decrypt_secret, decrypt_spec, encrypt_secret, enc_prefix_spec, is_encrypted, SecretError};
use crate::text::{copy_str, str_eq, starts_with_spec, trim, trim_spec, to_ascii_lower, ascii_lower_spec};
use super::apply::{apply_outcome, apply_ui_config, mask_or_empty, mask_or_empty_spec, AppliedConfig, ConfigState};
use super::apply::new_llm_spec;
use super::blank_or_masked;
use super::put::{
    card_entry, card_kept, card_key, card_pushed, cards_prefix, count_from, keep_disabled,
    keep_thinking, legacy_applies, resolved_set, stored_for, triple_pred, ApplyError,
};
use super::types::{
    default_retry_attempts, default_timeout_seconds, empty_gitlab_view, empty_llm_view, mask_spec, mask_string, ui_platform_views, ui_provider_views,
    UiConfig, UiConfigView, UiGitLabConfig, UiGitLabView, UiGitPlatformConfig, UiGitPlatformView, UiLlmConfig,
    UiLlmProviderConfig, UiLlmProviderView, UiLlmView,
};

verus! {

/// The legacy GitLab credentials as persisted (live values).
#[derive(Debug)]
pub struct PersistedGitlabConfig {
    pub token: String,
    pub webhook_secret: String,
    pub webhook_signing_secret: String,
}

pub struct PersistedGitlabView {
    pub token: Seq<char>,
    pub webhook_secret: Seq<char>,
    pub webhook_signing_secret: Seq<char>,
}

impl View for PersistedGitlabConfig {
    type V = PersistedGitlabView;

    open spec fn view(&self) -> PersistedGitlabView {
        PersistedGitlabView {
            token: self.token@,
            webhook_secret: self.webhook_secret@,
            webhook_signing_secret: self.webhook_signing_secret@,
        }
    }
}

impl PersistedGitlabConfig {
    /// Nothing persisted.
    pub fn empty() -> (r: Self)
        ensures
            r.token@.len() == 0 && r.webhook_secret@.len() == 0 && r.webhook_signing_secret@.len() == 0,
    {
        PersistedGitlabConfig { token: String::new(), webhook_secret: String::new(), webhook_signing_secret: String::new() }
    }
}

/// The persisted UI state: the masked projection and the live secrets of
/// the provider, platform and legacy GitLab stores.
#[derive(Debug)]
pub struct UiStateFile {
    /// The UI projection; `None` when the file has none.
    pub ui: Option<UiConfig>,
    pub llm: Vec<LLMConfig>,
    pub git_platforms: Vec<GitPlatformConfig>,
    pub gitlab: PersistedGitlabConfig,
}

impl UiStateFile {
    /// A state with nothing in it.
    pub fn empty() -> (r: Self)
        ensures
            r.ui.is_none(),
            r.llm@.len() == 0,
            r.git_platforms@.len() == 0,
            r.gitlab.token@.len() == 0 && r.gitlab.webhook_secret@.len() == 0 && r.gitlab.webhook_signing_secret@.len()
                == 0,
    {
        UiStateFile { ui: None, llm: Vec::new(), git_platforms: Vec::new(), gitlab: PersistedGitlabConfig::empty() }
    }

    /// Whether the state holds nothing at all (a database with no UI state
    /// is then not replayed).
    pub fn is_empty(&self) -> (r: bool)
        ensures
            r == (self.ui.is_none() && self.llm@.len() == 0 && self.git_platforms@.len() == 0
                && self.gitlab.token@.len() == 0 && self.gitlab.webhook_secret@.len() == 0
                && self.gitlab.webhook_signing_secret@.len() == 0),
    {
        self.ui.is_none() && self.llm.len() == 0 && self.git_platforms.len() == 0 && self.gitlab.token.as_str().is_empty()
            && self.gitlab.webhook_secret.as_str().is_empty() && self.gitlab.webhook_signing_secret.as_str().is_empty()
    }
}

/// What the environment (CLI flags / env vars) supplied at startup.
#[derive(Debug)]
pub struct UiStateEnvOverrides {
    pub gitlab_token: Option<String>,
    pub gitlab_webhook_secret: Option<String>,
    pub gitlab_webhook_signing_secret: Option<String>,
    /// True when env seeded the provider list (then it wins wholesale).
    pub llm_from_env: bool,
    /// The provider entries env seeded.
    pub llm_entries: Vec<LLMConfig>,
}

impl UiStateEnvOverrides {
    /// No env value at all.
    pub fn none() -> (r: Self)
        ensures
            r.gitlab_token.is_none() && r.gitlab_webhook_secret.is_none() && r.gitlab_webhook_signing_secret.is_none(),
            !r.llm_from_env,
            r.llm_entries@.len() == 0,
    {
        UiStateEnvOverrides {
            gitlab_token: None,
            gitlab_webhook_secret: None,
            gitlab_webhook_signing_secret: None,
            llm_from_env: false,
            llm_entries: Vec::new(),
        }
    }
}

/// Whether `entry` carries the credential of the env entry `e`: for a keyed
/// env entry the same key under the same provider label or endpoint; for a
/// keyless one the same provider, endpoint and model, keyless too.
pub open spec fn same_env_credential(e: LlmConfigView, entry: LlmConfigView) -> bool {
    if e.api_key.len() == 0 {
        entry.api_key.len() == 0 && e.provider == entry.provider && e.api_base == entry.api_base && e.model == entry.model
    } else {
        e.api_key == entry.api_key && (e.provider == entry.provider || e.api_base == entry.api_base)
    }
}

pub open spec fn env_derived(entry: LlmConfigView, envs: Seq<LlmConfigView>) -> bool {
    exists|i: int| 0 <= i < envs.len() && same_env_credential(#[trigger] envs[i], entry)
}

/// Which resolved entries count as env-supplied (and so are never
/// persisted): an entry carrying a keyed env entry's key under its provider
/// label or its endpoint is; a keyed entry whose key is no env entry's key
/// never is (a re-typed key is the user's and is persisted); a keyless entry
/// is only when a keyless env entry has its provider, endpoint and model.
pub proof fn law_env_derived_rule(entry: LlmConfigView, envs: Seq<LlmConfigView>, k: int)
    ensures
        0 <= k < envs.len() && envs[k].api_key.len() > 0 && envs[k].api_key == entry.api_key && (envs[k].provider
            == entry.provider || envs[k].api_base == entry.api_base) ==> env_derived(entry, envs),
        entry.api_key.len() > 0 && (forall|i: int| 0 <= i < envs.len() ==> (#[trigger] envs[i]).api_key != entry.api_key)
            ==> !env_derived(entry, envs),
        entry.api_key.len() == 0 ==> (env_derived(entry, envs) <==> exists|i: int|
            0 <= i < envs.len() && (#[trigger] envs[i]).api_key.len() == 0 && envs[i].provider == entry.provider
                && envs[i].api_base == entry.api_base && envs[i].model == entry.model),
{
    if 0 <= k < envs.len() {
        assert(same_env_credential(envs[k], entry) ==> env_derived(entry, envs));
    }
}

/// Whether a resolved provider entry came from env/CLI (then it is never
/// persisted).
pub fn is_env_derived_llm(entry: &LLMConfig, env_entries: &Vec<LLMConfig>) -> (r: bool)
    ensures
        r == env_derived(entry@, llm_views(env_entries@)),
{
    let ghost envs = llm_views(env_entries@);
    let mut i: usize = 0;
    while i < env_entries.len()
        invariant
            envs == llm_views(env_entries@),
            i <= env_entries@.len(),
            forall|j: int| 0 <= j < i ==> !same_env_credential(#[trigger] envs[j], entry@),
        decreases env_entries@.len() - i,
    {
        let e = &env_entries[i];
        assert(envs[i as int] == e@);
        let hit = if e.api_key.as_str().is_empty() {
            entry.api_key.as_str().is_empty() && str_eq(e.provider.as_str(), entry.provider.as_str()) && str_eq(
                e.api_base.as_str(),
                entry.api_base.as_str(),
            ) && str_eq(e.model.as_str(), entry.model.as_str())
        } else {
            str_eq(e.api_key.as_str(), entry.api_key.as_str()) && (str_eq(e.provider.as_str(), entry.provider.as_str())
                || str_eq(e.api_base.as_str(), entry.api_base.as_str()))
        };
        if hit {
            return true;
        }
        i = i + 1;
    }
    false
}

/// A resolved value equal to the env-supplied one is env-derived and is
/// persisted as unset.
pub open spec fn strip_env_spec(resolved: Seq<char>, env: Option<Seq<char>>) -> Seq<char> {
    match env {
        Some(v) => if v == resolved {
            Seq::empty()
        } else {
            resolved
        },
        None => resolved,
    }
}

pub fn strip_env_value(resolved: &str, env: Option<&String>) -> (r: String)
    ensures
        r@ == strip_env_spec(resolved@, match env {
            Some(v) => Some(v@),
            None => None,
        }),
{
    match env {
        Some(v) => if str_eq(v.as_str(), resolved) {
            String::new()
        } else {
            copy_str(resolved)
        },
        None => copy_str(resolved),
    }
}

/// The first card named `name` at or after `i`.
pub open spec fn first_named(cs: Seq<LlmConfigView>, name: Seq<char>, i: int) -> Option<int>
    decreases cs.len() - i,
{
    if i < 0 || i >= cs.len() {
        None
    } else if cs[i].provider == name {
        Some(i)
    } else {
        first_named(cs, name, i + 1)
    }
}

/// Whether a saved `openai` card has a key.
pub open spec fn keyed_openai(cs: Seq<LlmConfigView>) -> bool {
    exists|i: int| 0 <= i < cs.len() && (#[trigger] cs[i]).provider == "openai"@ && cs[i].api_key.len() > 0
}

/// The legacy scalar mirror after syncing it with the saved provider set.
pub open spec fn synced_projection(llm: UiLlmView, saved: Seq<LlmConfigView>) -> UiLlmView {
    if saved.len() == 0 {
        UiLlmView { openai_api_key: Seq::empty(), ..llm }
    } else {
        let p = match first_named(saved, llm.primary_provider, 0) {
            Some(i) => saved[i],
            None => saved[0],
        };
        UiLlmView {
            primary_provider: p.provider,
            default_model: p.model,
            api_base_url: p.api_base,
            max_tokens: p.max_tokens,
            temperature: p.temperature,
            openai_api_key: if keyed_openai(saved) {
                mask_spec()
            } else {
                Seq::empty()
            },
            ..llm
        }
    }
}

proof fn lemma_first_named(cs: Seq<LlmConfigView>, name: Seq<char>, i: int)
    requires
        0 <= i,
    ensures
        match first_named(cs, name, i) {
            Some(j) => i <= j < cs.len() && cs[j].provider == name,
            None => forall|k: int| i <= k < cs.len() ==> (#[trigger] cs[k]).provider != name,
        },
    decreases cs.len() - i,
{
    if i < cs.len() && cs[i].provider != name {
        lemma_first_named(cs, name, i + 1);
    }
}

/// The persisted legacy mirror never describes an entry that is not saved:
/// with a saved set, its primary, model, base URL, token limit and
/// temperature are those of one saved entry (the recorded primary's when it
/// is saved), and its key is the mask exactly when a saved `openai` card has
/// a key, otherwise empty; with nothing saved its key is empty. The
/// provider cards and the other settings are left as they were.
pub proof fn law_persisted_mirror_describes_a_saved_entry(llm: UiLlmView, saved: Seq<LlmConfigView>)
    ensures
        ({
            let m = synced_projection(llm, saved);
            &&& m.providers == llm.providers
            &&& m.timeout_seconds == llm.timeout_seconds && m.retry_attempts == llm.retry_attempts
            &&& saved.len() == 0 ==> m.openai_api_key.len() == 0
            &&& saved.len() > 0 ==> {
                &&& exists|j: int| 0 <= j < saved.len() && m.primary_provider == (#[trigger] saved[j]).provider
                    && m.default_model == saved[j].model && m.api_base_url == saved[j].api_base && m.max_tokens
                    == saved[j].max_tokens && m.temperature == saved[j].temperature
                &&& (exists|j: int| 0 <= j < saved.len() && (#[trigger] saved[j]).provider == llm.primary_provider)
                    ==> m.primary_provider == llm.primary_provider
                &&& m.openai_api_key == (if keyed_openai(saved) { mask_spec() } else { Seq::<char>::empty() })
            }
        }),
{
    lemma_first_named(saved, llm.primary_provider, 0);
    if saved.len() > 0 {
        let j = match first_named(saved, llm.primary_provider, 0) {
            Some(j) => j,
            None => 0,
        };
        assert(0 <= j < saved.len());
        assert(synced_projection(llm, saved).primary_provider == saved[j].provider);
    }
}

/// Sync the persisted legacy scalar mirror with the saved provider set, so
/// it never describes an entry that is not persisted.
pub fn sync_llm_projection(ui_llm: &mut UiLlmConfig, saved: &Vec<LLMConfig>)
    ensures
        final(ui_llm)@ == synced_projection(old(ui_llm)@, llm_views(saved@)),
{
    let ghost cs = llm_views(saved@);
    if saved.len() == 0 {
        ui_llm.openai_api_key = String::new();
        proof {
            assert(ui_llm@.openai_api_key =~= Seq::<char>::empty());
        }
        return;
    }
    let ghost prim = ui_llm@.primary_provider;
    let mut idx: usize = 0;
    let mut found = false;
    let mut i: usize = saved.len();
    while i > 0
        invariant
            i <= saved@.len(),
            cs == llm_views(saved@),
            saved@.len() > 0,
            idx < saved@.len(),
            prim == ui_llm@.primary_provider,
            !found ==> idx == 0,
            found ==> first_named(cs, prim, i as int) == Some(idx as int),
            !found ==> first_named(cs, prim, i as int).is_none(),
        decreases i,
    {
        i = i - 1;
        assert(cs[i as int] == saved@[i as int]@);
        if str_eq(saved[i].provider.as_str(), ui_llm.primary_provider.as_str()) {
            idx = i;
            found = true;
        }
    }
    let p = &saved[idx];
    assert(cs[idx as int] == p@);
    let mut any_openai = false;
    let mut k: usize = 0;
    proof {
        reveal_strlit("openai");
    }
    while k < saved.len()
        invariant
            k <= saved@.len(),
            cs == llm_views(saved@),
            idx < saved@.len(),
            cs[idx as int] == p@,
            found ==> first_named(cs, prim, 0) == Some(idx as int),
            !found ==> first_named(cs, prim, 0).is_none(),
            !found ==> idx == 0,
            any_openai == exists|j: int| 0 <= j < k && (#[trigger] cs[j]).provider == "openai"@ && cs[j].api_key.len() > 0,
        decreases saved@.len() - k,
    {
        assert(cs[k as int] == saved@[k as int]@);
        if str_eq(saved[k].provider.as_str(), "openai") && !saved[k].api_key.as_str().is_empty() {
            any_openai = true;
        }
        k = k + 1;
    }
    ui_llm.primary_provider = copy_str(p.provider.as_str());
    ui_llm.default_model = copy_str(p.model.as_str());
    ui_llm.api_base_url = copy_str(p.api_base.as_str());
    ui_llm.max_tokens = p.max_tokens;
    ui_llm.temperature = p.temperature;
    ui_llm.openai_api_key = if any_openai {
        mask_string()
    } else {
        String::new()
    };
    proof {
        if !any_openai {
            assert(ui_llm@.openai_api_key =~= Seq::<char>::empty());
        }
    }
}

/// The provider entries that are not env-derived, in order.
pub open spec fn user_entries(cs: Seq<LlmConfigView>, envs: Seq<LlmConfigView>) -> Seq<LlmConfigView>
    decreases cs.len(),
{
    if cs.len() == 0 {
        cs
    } else {
        let r = user_entries(cs.drop_last(), envs);
        if env_derived(cs.last(), envs) {
            r
        } else {
            r.push(cs.last())
        }
    }
}

pub open spec fn env_opt(v: Option<String>) -> Option<Seq<char>> {
    match v {
        Some(s) => Some(s@),
        None => None,
    }
}

impl UiStateFile {
    /// The persistable file of a resolved update, with every env-derived
    /// value left out: env provider entries are skipped, an env-equal GitLab
    /// secret is stored as unset, and the projection is kept consistent with
    /// what is stored.
    pub fn from_applied(applied: &AppliedConfig, env: Option<&UiStateEnvOverrides>) -> (r: UiStateFile)
        ensures
            ({
                let envs = match env {
                    Some(e) => llm_views(e.llm_entries@),
                    None => Seq::empty(),
                };
                let saved = user_entries(llm_views(applied.llm@), envs);
                let tok = strip_env_spec(applied.gitlab_token@, match env {
                    Some(e) => env_opt(e.gitlab_token),
                    None => None,
                });
                &&& llm_views(r.llm@) == saved
                &&& platform_views(r.git_platforms@) == platform_views(applied.git_platforms@)
                &&& r.gitlab.token@ == tok
                &&& r.gitlab.webhook_secret@ == strip_env_spec(applied.gitlab_webhook_secret@, match env {
                    Some(e) => env_opt(e.gitlab_webhook_secret),
                    None => None,
                })
                &&& r.gitlab.webhook_signing_secret@ == strip_env_spec(applied.gitlab_webhook_signing_secret@, match env {
                    Some(e) => env_opt(e.gitlab_webhook_signing_secret),
                    None => None,
                })
                &&& r.ui matches Some(u) && u@ == (UiConfigView {
                    llm: synced_projection(applied.ui@.llm, saved),
                    gitlab: (UiGitLabView { api_token: mask_or_empty_spec(tok), ..applied.ui@.gitlab }),
                    ..applied.ui@
                })
            }),
    {
        let empty: Vec<LLMConfig> = Vec::new();
        let env_llm: &Vec<LLMConfig> = match env {
            Some(e) => &e.llm_entries,
            None => &empty,
        };
        let ghost envs = llm_views(env_llm@);
        proof {
            assert(envs =~= (match env {
                Some(e) => llm_views(e.llm_entries@),
                None => Seq::<LlmConfigView>::empty(),
            }));
        }
        let ghost src = llm_views(applied.llm@);
        let mut llm: Vec<LLMConfig> = Vec::new();
        let mut i: usize = 0;
        while i < applied.llm.len()
            invariant
                i <= applied.llm@.len(),
                src == llm_views(applied.llm@),
                envs == llm_views(env_llm@),
                llm_views(llm@) == user_entries(src.subrange(0, i as int), envs),
            decreases applied.llm@.len() - i,
        {
            let c = &applied.llm[i];
            proof {
                let p = src.subrange(0, i + 1);
                assert(p.drop_last() =~= src.subrange(0, i as int));
                assert(p.last() == c@);
            }
            if !is_env_derived_llm(c, env_llm) {
                let ghost before = llm_views(llm@);
                llm.push(c.copy());
                assert(llm_views(llm@) =~= before.push(c@));
            }
            i = i + 1;
        }
        assert(src.subrange(0, applied.llm@.len() as int) =~= src);
        let mut ui = applied.ui.copy();
        sync_llm_projection(&mut ui.llm, &llm);
        let token = strip_env_value(
            applied.gitlab_token.as_str(),
            match env {
                Some(e) => match &e.gitlab_token {
                    Some(v) => Some(v),
                    None => None,
                },
                None => None,
            },
        );
        let webhook_secret = strip_env_value(
            applied.gitlab_webhook_secret.as_str(),
            match env {
                Some(e) => match &e.gitlab_webhook_secret {
                    Some(v) => Some(v),
                    None => None,
                },
                None => None,
            },
        );
        let signing = strip_env_value(
            applied.gitlab_webhook_signing_secret.as_str(),
            match env {
                Some(e) => match &e.gitlab_webhook_signing_secret {
                    Some(v) => Some(v),
                    None => None,
                },
                None => None,
            },
        );
        ui.gitlab.api_token = mask_or_empty(token.as_str());
        UiStateFile {
            ui: Some(ui),
            llm,
            git_platforms: copy_platform_list(&applied.git_platforms),
            gitlab: PersistedGitlabConfig { token, webhook_secret, webhook_signing_secret: signing },
        }
    }
}

/// The at-rest form of a secret: empty stays empty.
pub fn encrypt_non_empty(value: &str, key: &[u8; 32]) -> (r: Result<String, SecretError>)
    ensures
        value@.len() == 0 ==> (r matches Ok(s) && s@.len() == 0),
        value@.len() > 0 ==> match r {
            Ok(s) => decrypt_spec(s@, key@) == Ok::<Seq<char>, SecretError>(value@) && starts_with_spec(
                s@,
                enc_prefix_spec(),
            ),
            Err(e) => e == SecretError::EncryptionFailed,
        },
{
    if value.is_empty() {
        Ok(String::new())
    } else {
        let r = encrypt_secret(value, key);
        proof {
            match &r {
                Ok(s) => {
                    let nonce = choose|nonce: Seq<u8>|
                        nonce.len() == 12 && crate::secrets::sealed_form(key@, nonce, value@) == Some(s@);
                    reveal_strlit("enc:");
                    assert(s@.subrange(0, 4) =~= "enc:"@);
                },
                Err(_) => {},
            }
        }
        r
    }
}

/// The three secrets of a platform entry, decrypted or encrypted in turn.
/// The first of three stored secrets, in order, that does not decrypt
/// under `key`, by its error; `None` when all three decrypt.
pub open spec fn first_error3(a: Seq<char>, b: Seq<char>, c: Seq<char>, key: Seq<u8>) -> Option<SecretError> {
    match decrypt_spec(a, key) {
        Err(e) => Some(e),
        Ok(_) => match decrypt_spec(b, key) {
            Err(e) => Some(e),
            Ok(_) => match decrypt_spec(c, key) {
                Err(e) => Some(e),
                Ok(_) => None,
            },
        },
    }
}

/// The error of the first secret of a platform (token, webhook secret,
/// signing secret) that does not decrypt.
pub open spec fn platform_decrypt_error(p: GitPlatformView, key: Seq<u8>) -> Option<SecretError> {
    first_error3(p.token, p.webhook_secret, p.webhook_signing_secret, key)
}

/// The error of the first platform, in order, with a secret that does not
/// decrypt.
pub open spec fn platforms_decrypt_error(ps: Seq<GitPlatformView>, key: Seq<u8>) -> Option<SecretError>
    decreases ps.len(),
{
    if ps.len() == 0 {
        None
    } else {
        match platform_decrypt_error(ps[0], key) {
            Some(e) => Some(e),
            None => platforms_decrypt_error(ps.drop_first(), key),
        }
    }
}

/// The error decrypting a persisted state meets first: the platforms' secrets
/// in order, then the legacy GitLab token, webhook secret and signing secret;
/// `None` when every secret decrypts.
pub open spec fn state_decrypt_error(ps: Seq<GitPlatformView>, gitlab: PersistedGitlabView, key: Seq<u8>) -> Option<
    SecretError,
> {
    match platforms_decrypt_error(ps, key) {
        Some(e) => Some(e),
        None => first_error3(gitlab.token, gitlab.webhook_secret, gitlab.webhook_signing_secret, key),
    }
}

proof fn lemma_platforms_decrypt_skip(ps: Seq<GitPlatformView>, key: Seq<u8>, i: int)
    requires
        0 <= i <= ps.len(),
        forall|k: int| 0 <= k < i ==> platform_decrypt_error(#[trigger] ps[k], key) is None,
    ensures
        platforms_decrypt_error(ps, key) == platforms_decrypt_error(ps.subrange(i, ps.len() as int), key),
    decreases i,
{
    if i == 0 {
        assert(ps.subrange(0, ps.len() as int) =~= ps);
    } else {
        let t = ps.drop_first();
        assert(platform_decrypt_error(ps[0], key) is None);
        assert forall|k: int| 0 <= k < i - 1 implies platform_decrypt_error(#[trigger] t[k], key) is None by {
            assert(t[k] == ps[k + 1]);
        }
        lemma_platforms_decrypt_skip(t, key, i - 1);
        assert(t.subrange(i - 1, t.len() as int) =~= ps.subrange(i, ps.len() as int));
    }
}

fn platform_secrets_map(p: &GitPlatformConfig, key: &[u8; 32], encrypt: bool) -> (r: Result<GitPlatformConfig, SecretError>)
    ensures
        r matches Ok(q) ==> q@.id == p@.id && q@.name == p@.name && q@.platform_type == p@.platform_type
            && q@.base_url == p@.base_url && q@.internal_base_url == p@.internal_base_url
            && q@.allowed_projects == p@.allowed_projects,
        !encrypt ==> match r {
            Ok(q) => decrypt_spec(p@.token, key@) == Ok::<Seq<char>, SecretError>(q@.token) && decrypt_spec(
                p@.webhook_secret,
                key@,
            ) == Ok::<Seq<char>, SecretError>(q@.webhook_secret) && decrypt_spec(p@.webhook_signing_secret, key@)
                == Ok::<Seq<char>, SecretError>(q@.webhook_signing_secret),
            Err(e) => platform_decrypt_error(p@, key@) == Some(e),
        },
        encrypt ==> (r matches Ok(q) ==> (p@.token.len() == 0 ==> q@.token.len() == 0) && (p@.token.len() > 0
            ==> decrypt_spec(q@.token, key@) == Ok::<Seq<char>, SecretError>(p@.token)) && (p@.webhook_secret.len()
            == 0 ==> q@.webhook_secret.len() == 0) && (p@.webhook_secret.len() > 0 ==> decrypt_spec(
            q@.webhook_secret,
            key@,
        ) == Ok::<Seq<char>, SecretError>(p@.webhook_secret)) && (p@.webhook_signing_secret.len() == 0
            ==> q@.webhook_signing_secret.len() == 0) && (p@.webhook_signing_secret.len() > 0 ==> decrypt_spec(
            q@.webhook_signing_secret,
            key@,
        ) == Ok::<Seq<char>, SecretError>(p@.webhook_signing_secret))),
{
    let token = if encrypt {
        encrypt_non_empty(p.token.as_str(), key)
    } else {
        decrypt_secret(p.token.as_str(), key)
    };
    let token = match token {
        Ok(t) => t,
        Err(e) => return Err(e),
    };
    let webhook_secret = if encrypt {
        encrypt_non_empty(p.webhook_secret.as_str(), key)
    } else {
        decrypt_secret(p.webhook_secret.as_str(), key)
    };
    let webhook_secret = match webhook_secret {
        Ok(t) => t,
        Err(e) => return Err(e),
    };
    let signing = if encrypt {
        encrypt_non_empty(p.webhook_signing_secret.as_str(), key)
    } else {
        decrypt_secret(p.webhook_signing_secret.as_str(), key)
    };
    let signing = match signing {
        Ok(t) => t,
        Err(e) => return Err(e),
    };
    Ok(GitPlatformConfig {
        id: copy_str(p.id.as_str()),
        name: copy_str(p.name.as_str()),
        platform_type: copy_str(p.platform_type.as_str()),
        base_url: copy_str(p.base_url.as_str()),
        internal_base_url: copy_str(p.internal_base_url.as_str()),
        token,
        webhook_secret,
        webhook_signing_secret: signing,
        allowed_projects: copy_string_list(&p.allowed_projects),
    })
}

/// Whether a stored secret decrypts back to `plain` (or both are empty).
pub open spec fn restores(stored: Seq<char>, plain: Seq<char>, key: Seq<u8>) -> bool {
    if plain.len() == 0 {
        stored.len() == 0
    } else {
        decrypt_spec(stored, key) == Ok::<Seq<char>, SecretError>(plain)
    }
}

/// The at-rest form of a state: git platform and legacy GitLab secrets
/// encrypted (empty values stay empty); provider keys and the projection
/// are written as they are.
pub fn encrypt_ui_state(state: &UiStateFile, key: &[u8; 32]) -> (r: Result<UiStateFile, SecretError>)
    ensures
        r matches Ok(out) ==> {
            &&& llm_views(out.llm@) == llm_views(state.llm@)
            &&& out.git_platforms@.len() == state.git_platforms@.len()
            &&& forall|i: int| 0 <= i < state.git_platforms@.len() ==> {
                let (p, q) = (#[trigger] state.git_platforms@[i]@, out.git_platforms@[i]@);
                &&& q.id == p.id && q.name == p.name && q.platform_type == p.platform_type && q.base_url == p.base_url
                    && q.internal_base_url == p.internal_base_url && q.allowed_projects == p.allowed_projects
                &&& restores(q.token, p.token, key@)
                &&& restores(q.webhook_secret, p.webhook_secret, key@)
                &&& restores(q.webhook_signing_secret, p.webhook_signing_secret, key@)
            }
            &&& restores(out.gitlab.token@, state.gitlab.token@, key@)
            &&& restores(out.gitlab.webhook_secret@, state.gitlab.webhook_secret@, key@)
            &&& restores(out.gitlab.webhook_signing_secret@, state.gitlab.webhook_signing_secret@, key@)
            &&& match (out.ui, state.ui) {
                (Some(a), Some(b)) => a@ == b@,
                (None, None) => true,
                _ => false,
            }
        },
        r matches Err(e) ==> e == SecretError::EncryptionFailed,
{
    let mut platforms: Vec<GitPlatformConfig> = Vec::new();
    let mut i: usize = 0;
    while i < state.git_platforms.len()
        invariant
            i <= state.git_platforms@.len(),
            platforms@.len() == i,
            forall|k: int| 0 <= k < i ==> {
                let (p, q) = (#[trigger] state.git_platforms@[k]@, platforms@[k]@);
                &&& q.id == p.id && q.name == p.name && q.platform_type == p.platform_type && q.base_url == p.base_url
                    && q.internal_base_url == p.internal_base_url && q.allowed_projects == p.allowed_projects
                &&& restores(q.token, p.token, key@)
                &&& restores(q.webhook_secret, p.webhook_secret, key@)
                &&& restores(q.webhook_signing_secret, p.webhook_signing_secret, key@)
            },
        decreases state.git_platforms@.len() - i,
    {
        match platform_secrets_map(&state.git_platforms[i], key, true) {
            Ok(q) => platforms.push(q),
            Err(_) => return Err(SecretError::EncryptionFailed),
        }
        i = i + 1;
    }
    let token = match encrypt_non_empty(state.gitlab.token.as_str(), key) {
        Ok(t) => t,
        Err(_) => return Err(SecretError::EncryptionFailed),
    };
    let webhook_secret = match encrypt_non_empty(state.gitlab.webhook_secret.as_str(), key) {
        Ok(t) => t,
        Err(_) => return Err(SecretError::EncryptionFailed),
    };
    let signing = match encrypt_non_empty(state.gitlab.webhook_signing_secret.as_str(), key) {
        Ok(t) => t,
        Err(_) => return Err(SecretError::EncryptionFailed),
    };
    Ok(UiStateFile {
        ui: match &state.ui {
            Some(u) => Some(u.copy()),
            None => None,
        },
        llm: copy_llm_list(&state.llm),
        git_platforms: platforms,
        gitlab: PersistedGitlabConfig { token, webhook_secret, webhook_signing_secret: signing },
    })
}

/// Undo [`encrypt_ui_state`] in place: each git secret decrypted (legacy
/// plaintext passes through). On failure the state is left as it was.
pub fn decrypt_ui_state(state: &mut UiStateFile, key: &[u8; 32]) -> (r: Result<(), SecretError>)
    ensures
        r == (match state_decrypt_error(platform_views(old(state).git_platforms@), old(state).gitlab@, key@) {
            Some(e) => Err::<(), SecretError>(e),
            None => Ok(()),
        }),
        r is Ok ==> {
            &&& llm_views(final(state).llm@) == llm_views(old(state).llm@)
            &&& final(state).git_platforms@.len() == old(state).git_platforms@.len()
            &&& forall|i: int| 0 <= i < old(state).git_platforms@.len() ==> {
                let (p, q) = (#[trigger] old(state).git_platforms@[i]@, final(state).git_platforms@[i]@);
                &&& q.id == p.id && q.name == p.name && q.platform_type == p.platform_type && q.base_url == p.base_url
                    && q.internal_base_url == p.internal_base_url && q.allowed_projects == p.allowed_projects
                &&& decrypt_spec(p.token, key@) == Ok::<Seq<char>, SecretError>(q.token)
                &&& decrypt_spec(p.webhook_secret, key@) == Ok::<Seq<char>, SecretError>(q.webhook_secret)
                &&& decrypt_spec(p.webhook_signing_secret, key@) == Ok::<Seq<char>, SecretError>(q.webhook_signing_secret)
            }
            &&& decrypt_spec(old(state).gitlab.token@, key@) == Ok::<Seq<char>, SecretError>(final(state).gitlab.token@)
            &&& decrypt_spec(old(state).gitlab.webhook_secret@, key@) == Ok::<Seq<char>, SecretError>(
                final(state).gitlab.webhook_secret@,
            )
            &&& decrypt_spec(old(state).gitlab.webhook_signing_secret@, key@) == Ok::<Seq<char>, SecretError>(
                final(state).gitlab.webhook_signing_secret@,
            )
            &&& final(state).ui == old(state).ui
        },
        r is Err ==> *final(state) == *old(state),
{
    let ghost ps = platform_views(state.git_platforms@);
    let mut platforms: Vec<GitPlatformConfig> = Vec::new();
    let mut i: usize = 0;
    while i < state.git_platforms.len()
        invariant
            ps == platform_views(state.git_platforms@),
            i <= state.git_platforms@.len(),
            platforms@.len() == i,
            forall|k: int| 0 <= k < i ==> {
                let (p, q) = (#[trigger] state.git_platforms@[k]@, platforms@[k]@);
                &&& q.id == p.id && q.name == p.name && q.platform_type == p.platform_type && q.base_url == p.base_url
                    && q.internal_base_url == p.internal_base_url && q.allowed_projects == p.allowed_projects
                &&& decrypt_spec(p.token, key@) == Ok::<Seq<char>, SecretError>(q.token)
                &&& decrypt_spec(p.webhook_secret, key@) == Ok::<Seq<char>, SecretError>(q.webhook_secret)
                &&& decrypt_spec(p.webhook_signing_secret, key@) == Ok::<Seq<char>, SecretError>(q.webhook_signing_secret)
            },
        decreases state.git_platforms@.len() - i,
    {
        proof {
            assert forall|k: int| 0 <= k < i implies platform_decrypt_error(#[trigger] ps[k], key@) is None by {
                assert(ps[k] == state.git_platforms@[k]@);
            }
            lemma_platforms_decrypt_skip(ps, key@, i as int);
            assert(ps.subrange(i as int, ps.len() as int)[0] == state.git_platforms@[i as int]@);
        }
        match platform_secrets_map(&state.git_platforms[i], key, false) {
            Ok(q) => platforms.push(q),
            Err(e) => return Err(e),
        }
        i = i + 1;
    }
    proof {
        assert forall|k: int| 0 <= k < i implies platform_decrypt_error(#[trigger] ps[k], key@) is None by {
            assert(ps[k] == state.git_platforms@[k]@);
        }
        lemma_platforms_decrypt_skip(ps, key@, i as int);
        assert(platforms_decrypt_error(ps, key@) is None);
    }
    let token = match decrypt_secret(state.gitlab.token.as_str(), key) {
        Ok(t) => t,
        Err(e) => return Err(e),
    };
    let webhook_secret = match decrypt_secret(state.gitlab.webhook_secret.as_str(), key) {
        Ok(t) => t,
        Err(e) => return Err(e),
    };
    let signing = match decrypt_secret(state.gitlab.webhook_signing_secret.as_str(), key) {
        Ok(t) => t,
        Err(e) => return Err(e),
    };
    state.git_platforms = platforms;
    state.gitlab = PersistedGitlabConfig { token, webhook_secret, webhook_signing_secret: signing };
    Ok(())
}

/// Whether any git secret of the state is encrypted (then loading needs the
/// key; an all-plaintext legacy file does not).
pub open spec fn has_encrypted_spec(ps: Seq<GitPlatformView>, gitlab: PersistedGitlabView) -> bool {
    (exists|i: int| 0 <= i < ps.len() && (starts_with_spec((#[trigger] ps[i]).token, enc_prefix_spec())
        || starts_with_spec(ps[i].webhook_secret, enc_prefix_spec()) || starts_with_spec(
        ps[i].webhook_signing_secret,
        enc_prefix_spec(),
    ))) || starts_with_spec(gitlab.token, enc_prefix_spec()) || starts_with_spec(gitlab.webhook_secret, enc_prefix_spec())
        || starts_with_spec(gitlab.webhook_signing_secret, enc_prefix_spec())
}

pub fn has_encrypted_secrets(state: &UiStateFile) -> (r: bool)
    ensures
        r == has_encrypted_spec(platform_views(state.git_platforms@), state.gitlab@),
{
    let ghost ps = platform_views(state.git_platforms@);
    let mut any = false;
    let mut i: usize = 0;
    while i < state.git_platforms.len()
        invariant
            i <= state.git_platforms@.len(),
            ps == platform_views(state.git_platforms@),
            any == exists|j: int| 0 <= j < i && (starts_with_spec((#[trigger] ps[j]).token, enc_prefix_spec())
                || starts_with_spec(ps[j].webhook_secret, enc_prefix_spec()) || starts_with_spec(
                ps[j].webhook_signing_secret,
                enc_prefix_spec(),
            )),
        decreases state.git_platforms@.len() - i,
    {
        let p = &state.git_platforms[i];
        assert(ps[i as int] == p@);
        if is_encrypted(p.token.as_str()) || is_encrypted(p.webhook_secret.as_str()) || is_encrypted(
            p.webhook_signing_secret.as_str(),
        ) {
            any = true;
        }
        i = i + 1;
    }
    any || is_encrypted(state.gitlab.token.as_str()) || is_encrypted(state.gitlab.webhook_secret.as_str())
        || is_encrypted(state.gitlab.webhook_signing_secret.as_str())
}

/// The post-import backup path: the path with `.migrated` appended.
pub fn migrated_path(path: &str) -> (r: String)
    ensures
        r@ == path@ + ".migrated"@,
{
    let mut out = copy_str(path);
    let suffix = crate::text::chars_of(".migrated");
    let mut i: usize = 0;
    while i < suffix.len()
        invariant
            i <= suffix@.len(),
            suffix@ == ".migrated"@,
            out@ == path@ + suffix@.subrange(0, i as int),
        decreases suffix@.len() - i,
    {
        crate::text::push_char(&mut out, suffix[i]);
        i = i + 1;
    }
    assert(suffix@.subrange(0, suffix@.len() as int) =~= suffix@);
    out
}

/// Whether the value of the persistence escape hatch asks to run without a
/// database: `1`, `true` or `yes`, trimmed and ASCII case-insensitive.
pub open spec fn db_disabled_spec(value: Option<Seq<char>>) -> bool {
    match value {
        Some(v) => {
            let w = ascii_lower_spec(trim_spec(v));
            w == "1"@ || w == "true"@ || w == "yes"@
        },
        None => false,
    }
}

pub fn db_disabled_flag(value: Option<&str>) -> (r: bool)
    ensures
        r == db_disabled_spec(match value {
            Some(v) => Some(v@),
            None => None,
        }),
{
    match value {
        None => false,
        Some(v) => {
            let t = trim(v);
            let w = to_ascii_lower(t.as_str());
            str_eq(w.as_str(), "1") || str_eq(w.as_str(), "true") || str_eq(w.as_str(), "yes")
        },
    }
}

/// A file value, or the env value when the file's is empty.
pub open spec fn env_fallback_spec(value: Seq<char>, env: Option<Seq<char>>) -> Seq<char> {
    if value.len() > 0 {
        value
    } else {
        match env {
            Some(v) => v,
            None => Seq::empty(),
        }
    }
}

pub fn env_fallback(value: &str, env: &Option<String>) -> (r: String)
    ensures
        r@ == env_fallback_spec(value@, env_opt(*env)),
{
    if !value.is_empty() {
        copy_str(value)
    } else {
        match env {
            Some(v) => copy_str(v.as_str()),
            None => String::new(),
        }
    }
}

/// The update a persisted state replays: the file's projection, and for
/// each of the GitLab, provider and platform sections either the section to
/// apply or `None` (the section is left out, so the stored one stays).
#[derive(Debug)]
pub struct ReplayPayload {
    pub ui: Option<UiConfig>,
    pub gitlab: Option<UiGitLabConfig>,
    pub llm: Option<UiLlmConfig>,
    pub git_platforms: Option<Vec<UiGitPlatformConfig>>,
}

/// The UI card a persisted provider entry is replayed as.
pub open spec fn replayed_card(c: LlmConfigView) -> UiLlmProviderView {
    UiLlmProviderView {
        provider: c.provider,
        api_key: c.api_key,
        api_base_url: c.api_base,
        default_model: c.model,
        max_tokens: c.max_tokens,
        temperature: c.temperature,
        timeout_seconds: 60,
        retry_attempts: 3,
        disabled: Some(c.disabled),
        disable_thinking: c.disable_thinking,
    }
}

/// The UI entry a persisted platform is replayed as (live secrets).
pub open spec fn replayed_platform(p: GitPlatformView) -> UiGitPlatformView {
    UiGitPlatformView {
        id: p.id,
        name: p.name,
        platform_type: p.platform_type,
        base_url: p.base_url,
        internal_base_url: p.internal_base_url,
        token: p.token,
        webhook_secret: p.webhook_secret,
        webhook_signing_secret: p.webhook_signing_secret,
        allowed_projects: p.allowed_projects,
    }
}

/// The first `openai` entry at or after `i`.
pub open spec fn first_openai(cs: Seq<LlmConfigView>, i: int) -> Option<int>
    decreases cs.len() - i,
{
    if i < 0 || i >= cs.len() {
        None
    } else if cs[i].provider == "openai"@ {
        Some(i)
    } else {
        first_openai(cs, i + 1)
    }
}

fn replay_cards(llm: &Vec<LLMConfig>) -> (r: Vec<UiLlmProviderConfig>)
    ensures
        ui_provider_views(r@) == llm_views(llm@).map_values(|c: LlmConfigView| replayed_card(c)),
{
    let mut out: Vec<UiLlmProviderConfig> = Vec::new();
    let mut i: usize = 0;
    while i < llm.len()
        invariant
            i <= llm@.len(),
            out@.len() == i,
            forall|k: int| 0 <= k < i ==> (#[trigger] out@[k])@ == replayed_card(llm@[k]@),
        decreases llm@.len() - i,
    {
        let c = &llm[i];
        out.push(
            UiLlmProviderConfig {
                provider: copy_str(c.provider.as_str()),
                api_key: copy_str(c.api_key.as_str()),
                api_base_url: copy_str(c.api_base.as_str()),
                default_model: copy_str(c.model.as_str()),
                max_tokens: c.max_tokens,
                temperature: c.temperature,
                timeout_seconds: default_timeout_seconds(),
                retry_attempts: default_retry_attempts(),
                disabled: Some(c.disabled),
                disable_thinking: c.disable_thinking,
            },
        );
        i = i + 1;
    }
    assert(ui_provider_views(out@) =~= llm_views(llm@).map_values(|c: LlmConfigView| replayed_card(c)));
    out
}

fn replay_platforms(ps: &Vec<GitPlatformConfig>) -> (r: Vec<UiGitPlatformConfig>)
    ensures
        ui_platform_views(r@) == platform_views(ps@).map_values(|p: GitPlatformView| replayed_platform(p)),
{
    let mut out: Vec<UiGitPlatformConfig> = Vec::new();
    let mut i: usize = 0;
    while i < ps.len()
        invariant
            i <= ps@.len(),
            out@.len() == i,
            forall|k: int| 0 <= k < i ==> (#[trigger] out@[k])@ == replayed_platform(ps@[k]@),
        decreases ps@.len() - i,
    {
        let p = &ps[i];
        out.push(
            UiGitPlatformConfig {
                id: copy_str(p.id.as_str()),
                name: copy_str(p.name.as_str()),
                platform_type: copy_str(p.platform_type.as_str()),
                base_url: copy_str(p.base_url.as_str()),
                internal_base_url: copy_str(p.internal_base_url.as_str()),
                token: copy_str(p.token.as_str()),
                webhook_secret: copy_str(p.webhook_secret.as_str()),
                webhook_signing_secret: copy_str(p.webhook_signing_secret.as_str()),
                allowed_projects: copy_string_list(&p.allowed_projects),
            },
        );
        i = i + 1;
    }
    assert(ui_platform_views(out@) =~= platform_views(ps@).map_values(|p: GitPlatformView| replayed_platform(p)));
    out
}

/// The view of a replay: each section to apply, or `None` when left out.
pub struct ReplayView {
    pub ui: Option<UiConfigView>,
    pub gitlab: Option<UiGitLabView>,
    pub llm: Option<UiLlmView>,
    pub git_platforms: Option<Seq<UiGitPlatformView>>,
}

impl View for ReplayPayload {
    type V = ReplayView;

    open spec fn view(&self) -> ReplayView {
        ReplayView {
            ui: match self.ui {
                Some(u) => Some(u@),
                None => None,
            },
            gitlab: match self.gitlab {
                Some(g) => Some(g@),
                None => None,
            },
            llm: match self.llm {
                Some(l) => Some(l@),
                None => None,
            },
            git_platforms: match self.git_platforms {
                Some(p) => Some(ui_platform_views(p@)),
                None => None,
            },
        }
    }
}

/// The replay of a persisted state: its projection; the GitLab section
/// with the live credentials (env values filling empty file values) when
/// any is known; the provider section with the live keys unless env
/// supplies the providers or none is persisted; the platform section with
/// the live secrets when platforms are persisted.
pub open spec fn replay_spec(file: UiStateFile, overrides: UiStateEnvOverrides) -> ReplayView {
    let tok = env_fallback_spec(file.gitlab.token@, env_opt(overrides.gitlab_token));
    let wh = env_fallback_spec(file.gitlab.webhook_secret@, env_opt(overrides.gitlab_webhook_secret));
    let sg = env_fallback_spec(file.gitlab.webhook_signing_secret@, env_opt(overrides.gitlab_webhook_signing_secret));
    let ui = match file.ui {
        Some(u) => Some(u@),
        None => None,
    };
    ReplayView {
        ui,
        gitlab: if tok.len() > 0 || wh.len() > 0 || sg.len() > 0 {
            Some(
                UiGitLabView {
                    api_token: tok,
                    webhook_secret: wh,
                    webhook_signing_secret: sg,
                    ..match ui {
                        Some(u) => u.gitlab,
                        None => empty_gitlab_view(),
                    }
                },
            )
        } else {
            None
        },
        llm: if overrides.llm_from_env || file.llm@.len() == 0 {
            None
        } else {
            Some(
                UiLlmView {
                    openai_api_key: match first_openai(llm_views(file.llm@), 0) {
                        Some(i) => file.llm@[i]@.api_key,
                        None => Seq::empty(),
                    },
                    providers: llm_views(file.llm@).map_values(|c: LlmConfigView| replayed_card(c)),
                    ..match ui {
                        Some(u) => u.llm,
                        None => empty_llm_view(),
                    }
                },
            )
        },
        git_platforms: if file.git_platforms@.len() == 0 {
            None
        } else {
            Some(platform_views(file.git_platforms@).map_values(|p: GitPlatformView| replayed_platform(p)))
        },
    }
}

/// Build the replay of a persisted state: live secrets are injected (the
/// projection only carries masks); the GitLab section is replayed only
/// when some credential is known (env values filling empty file values);
/// the provider section is left out when env supplies the providers or
/// none is persisted; the platform section only when platforms are
/// persisted.
pub fn replay_payload(file: &UiStateFile, overrides: &UiStateEnvOverrides) -> (r: ReplayPayload)
    ensures
        r@ == replay_spec(*file, *overrides),

{
    let ui = match &file.ui {
        Some(u) => Some(u.copy()),
        None => None,
    };
    let token = env_fallback(file.gitlab.token.as_str(), &overrides.gitlab_token);
    let webhook_secret = env_fallback(file.gitlab.webhook_secret.as_str(), &overrides.gitlab_webhook_secret);
    let signing = env_fallback(file.gitlab.webhook_signing_secret.as_str(), &overrides.gitlab_webhook_signing_secret);
    let gitlab = if !token.as_str().is_empty() || !webhook_secret.as_str().is_empty() || !signing.as_str().is_empty() {
        let mut section = match &file.ui {
            Some(u) => u.gitlab.copy(),
            None => {
                let d = UiGitLabConfig::default();
                proof {
                    assert(d@.url =~= Seq::<char>::empty());
                    assert(d@.default_project =~= Seq::<char>::empty());
                    assert(d@.mr_label =~= Seq::<char>::empty());
                }
                d
            },
        };
        section.api_token = token;
        section.webhook_secret = webhook_secret;
        section.webhook_signing_secret = signing;
        Some(section)
    } else {
        None
    };
    let llm = if overrides.llm_from_env || file.llm.len() == 0 {
        None
    } else {
        let mut section = match &file.ui {
            Some(u) => u.llm.copy(),
            None => UiLlmConfig {
                primary_provider: String::new(),
                openai_api_key: String::new(),
                api_base_url: String::new(),
                default_model: String::new(),
                max_tokens: 0,
                temperature: crate::models::Temperature { bits: 0 },
                timeout_seconds: 0,
                retry_attempts: 0,
                providers: Vec::new(),
            },
        };
        let ghost cs = llm_views(file.llm@);
        let mut key = String::new();
        let mut i: usize = file.llm.len();
        proof {
            reveal_strlit("openai");
        }
        let mut found: Option<usize> = None;
        while i > 0
            invariant
                i <= file.llm@.len(),
                cs == llm_views(file.llm@),
                match found {
                    Some(j) => first_openai(cs, i as int) == Some(j as int) && j < file.llm@.len(),
                    None => first_openai(cs, i as int).is_none(),
                },
            decreases i,
        {
            i = i - 1;
            assert(cs[i as int] == file.llm@[i as int]@);
            if str_eq(file.llm[i].provider.as_str(), "openai") {
                found = Some(i);
            }
        }
        match found {
            Some(j) => {
                key = copy_str(file.llm[j].api_key.as_str());
            },
            None => {},
        }
        section.openai_api_key = key;
        section.providers = replay_cards(&file.llm);
        proof {
            if found.is_none() {
                assert(section@.openai_api_key =~= Seq::<char>::empty());
            }
            if file.ui.is_none() {
                assert(section@.primary_provider =~= Seq::<char>::empty());
                assert(section@.api_base_url =~= Seq::<char>::empty());
                assert(section@.default_model =~= Seq::<char>::empty());
            }
        }
        Some(section)
    };
    let git_platforms = if file.git_platforms.len() > 0 {
        Some(replay_platforms(&file.git_platforms))
    } else {
        None
    };
    ReplayPayload { ui, gitlab, llm, git_platforms }
}

/// The update body a replay amounts to over the stored projection.
pub open spec fn replay_body_spec(stored: UiConfigView, p: ReplayView) -> UiConfigView {
    UiConfigView {
        gitlab: match p.gitlab {
            Some(g) => g,
            None => stored.gitlab,
        },
        llm: match p.llm {
            Some(l) => l,
            None => stored.llm,
        },
        git_platforms: match p.git_platforms {
            Some(ps) => ps,
            None => stored.git_platforms,
        },
        rules: match p.ui {
            Some(u) => u.rules,
            None => stored.rules,
        },
        advanced: match p.ui {
            Some(u) => u.advanced,
            None => stored.advanced,
        },
        aggregated: match p.ui {
            Some(u) => u.aggregated,
            None => stored.aggregated,
        },
    }
}

/// The update body a replay amounts to over the stored projection: a
/// replayed section replaces the stored one, a left-out section keeps it,
/// and the file's projection supplies rules, advanced settings and the
/// aggregation flag. Also returns whether the replay states the provider
/// set and the legacy scalars (it does exactly when it replays the
/// provider section).
pub fn replay_body(stored: &UiConfig, payload: &ReplayPayload) -> (r: (UiConfig, bool, bool))
    ensures
        r.0@ == replay_body_spec(stored@, payload@),
        r.1 == payload@.llm is Some,
        r.2 == payload@.llm is Some,

{
    let base = match &payload.ui {
        Some(u) => u,
        None => stored,
    };
    let body = UiConfig {
        gitlab: match &payload.gitlab {
            Some(g) => g.copy(),
            None => stored.gitlab.copy(),
        },
        llm: match &payload.llm {
            Some(l) => l.copy(),
            None => stored.llm.copy(),
        },
        rules: base.rules.copy(),
        advanced: base.advanced.copy(),
        git_platforms: match &payload.git_platforms {
            Some(p) => crate::config::types::copy_ui_platform_list(p),
            None => crate::config::types::copy_ui_platform_list(&stored.git_platforms),
        },
        aggregated: base.aggregated,
    };
    let states = payload.llm.is_some();
    (body, states, states)
}

/// Apply a loaded persisted state (`None`: no file) through the same update
/// path as `PUT /config`; `Ok(true)` when one was applied.
pub fn load_and_apply_ui_state(
    state: &mut ConfigState,
    file: Option<UiStateFile>,
    overrides: &UiStateEnvOverrides,
) -> (r: Result<bool, ApplyError>)
    ensures
        file.is_none() ==> (r matches Ok(b) && !b && *final(state) == *old(state)),
        file matches Some(f) ==> ({
            let p = replay_spec(f, *overrides);
            exists|res: Result<AppliedConfig, ApplyError>|
                #![trigger apply_outcome(*old(state), *final(state), replay_body_spec(old(state).ui_config@, p), p.llm is Some, p.llm is Some, res)]
                apply_outcome(
                    *old(state),
                    *final(state),
                    replay_body_spec(old(state).ui_config@, p),
                    p.llm is Some,
                    p.llm is Some,
                    res,
                ) && match r {
                    Ok(b) => b && res is Ok,
                    Err(e) => res matches Err(x) && x == e,
                }
        }),

{
    match file {
        None => Ok(false),
        Some(f) => {
            let payload = replay_payload(&f, overrides);
            let (body, states_set, states_legacy) = replay_body(&state.ui_config, &payload);
            let res = apply_ui_config(state, body, states_set, states_legacy);
            let ghost outcome = res;
            match res {
                Ok(_) => Ok(true),
                Err(e) => {
                    assert(outcome matches Err(x) && x == e);
                    Err(e)
                },
            }
        },
    }
}

/// Env/CLI values are never persisted: no entry of the persisted provider
/// set carries an env entry's credential, and every persisted entry was
/// resolved by the update.
pub proof fn law_env_entries_never_persisted(cs: Seq<LlmConfigView>, envs: Seq<LlmConfigView>)
    ensures
        forall|i: int| 0 <= i < user_entries(cs, envs).len() ==> !env_derived(#[trigger] user_entries(cs, envs)[i], envs)
            && cs.contains(user_entries(cs, envs)[i]),
    decreases cs.len(),
{
    if cs.len() > 0 {
        let t = cs.drop_last();
        law_env_entries_never_persisted(t, envs);
        let r = user_entries(t, envs);
        let u = user_entries(cs, envs);
        assert forall|i: int| 0 <= i < u.len() implies !env_derived(#[trigger] u[i], envs) && cs.contains(u[i]) by {
            if i < r.len() {
                assert(u[i] == r[i]);
                assert(t.contains(r[i]));
                let j = choose|j: int| 0 <= j < t.len() && t[j] == r[i];
                assert(cs[j] == t[j]);
            } else {
                assert(u[i] == cs.last());
                assert(cs[cs.len() - 1] == cs.last());
            }
        }
    }
}

/// A persisted card as a restart replays it: named, with a live key (not
/// blank and not the mask).
pub open spec fn live_card(c: LlmConfigView) -> bool {
    c.provider.len() > 0 && c.api_key.len() > 0 && c.api_key != mask_spec()
}

/// The loaded card `s` would lend its thinking flag to the persisted card
/// `c`: `c` leaves the flag unset and `s` has its provider, base and model.
pub open spec fn lends_thinking(c: LlmConfigView, s: LlmConfigView) -> bool {
    c.disable_thinking is None && s.provider == c.provider && s.api_base == c.api_base && s.model == c.model
}

proof fn lemma_count_none<A>(s: Seq<A>, pred: spec_fn(A) -> bool, i: int)
    requires
        0 <= i <= s.len(),
        forall|k: int| i <= k < s.len() ==> !pred(#[trigger] s[k]),
    ensures
        count_from(s, pred, i) == 0,
    decreases s.len() - i,
{
    if i < s.len() {
        lemma_count_none(s, pred, i + 1);
    }
}

proof fn lemma_replayed_prefix(stored: Seq<LlmConfigView>, llm: UiLlmView, cs: Seq<LlmConfigView>, n: int)
    requires
        0 <= n <= cs.len(),
        llm.providers == cs.map_values(|c: LlmConfigView| replayed_card(c)),
        !legacy_applies(stored, llm, true),
        forall|i: int| 0 <= i < cs.len() ==> live_card(#[trigger] cs[i]),
        forall|i: int, j: int|
            0 <= i < cs.len() && 0 <= j < stored.len() ==> !lends_thinking(#[trigger] cs[i], #[trigger] stored[j]),
    ensures
        cards_prefix(stored, llm, true, n) == cs.subrange(0, n),
    decreases n,
{
    if n > 0 {
        lemma_replayed_prefix(stored, llm, cs, n - 1);
        let i = n - 1;
        let c = cs[i];
        let p = llm.providers[i];
        assert(p == replayed_card(c));
        assert(live_card(c));
        assert(!blank_or_masked(p.api_key));
        assert(card_key(stored, llm, i) == c.api_key);
        assert(card_pushed(stored, llm, true, i));
        if c.disable_thinking is None {
            let pred = triple_pred(p.provider, p.api_base_url, p.default_model);
            assert forall|k: int| 0 <= k < stored.len() implies !pred(#[trigger] stored[k]) by {
                assert(!lends_thinking(cs[i], stored[k]));
            }
            lemma_count_none(stored, pred, 0);
            assert(stored_for(stored, Some(i), p.provider, p.api_base_url, p.default_model) is None);
            assert(card_kept(stored, llm, i) is None);
        }
        assert(keep_thinking(p.disable_thinking, card_kept(stored, llm, i)) == c.disable_thinking);
        assert(keep_disabled(p.disabled, card_kept(stored, llm, i)) == c.disabled);
        assert(card_entry(stored, llm, i) == c);
        assert(cs.subrange(0, n) =~= cs.subrange(0, n - 1).push(c));
    }
}

/// A restart restores the persisted providers: replaying a persisted state
/// whose cards are named and carry live keys, when the providers do not come
/// from env, leaves the process serving exactly those cards, in their order.
/// Left out are the replays on which this fails: those whose legacy scalar
/// section stands for an `openai` entry of its own (that entry is put
/// first), and those where a card without a thinking flag meets a loaded
/// card with its provider, base and model (the loaded flag is kept).
pub proof fn law_restart_restores_persisted_providers(
    file: UiStateFile,
    overrides: UiStateEnvOverrides,
    old: ConfigState,
    new: ConfigState,
    res: Result<AppliedConfig, ApplyError>,
)
    requires
        !overrides.llm_from_env,
        file.llm@.len() > 0,
        forall|i: int| 0 <= i < file.llm@.len() ==> live_card(#[trigger] llm_views(file.llm@)[i]),
        old.app_config is Some,
        forall|i: int, j: int|
            0 <= i < file.llm@.len() && 0 <= j < old.app_config->0@.llm.len() ==> !lends_thinking(
                #[trigger] llm_views(file.llm@)[i],
                #[trigger] old.app_config->0@.llm[j],
            ),
        !legacy_applies(old.app_config->0@.llm, replay_spec(file, overrides).llm->0, true),
        apply_outcome(old, new, replay_body_spec(old.ui_config@, replay_spec(file, overrides)), true, true, res),
        res is Ok,
    ensures
        replay_spec(file, overrides).llm is Some,
        res matches Ok(a) && llm_views(a.llm@) == llm_views(file.llm@),
        llm_views(new.llm_configs@) == llm_views(file.llm@),
{
    let cs = llm_views(file.llm@);
    let stored = old.app_config->0@.llm;
    let p = replay_spec(file, overrides);
    let llm = p.llm->0;
    let body = replay_body_spec(old.ui_config@, p);
    assert(body.llm == llm);
    assert(llm.providers == cs.map_values(|c: LlmConfigView| replayed_card(c)));
    lemma_replayed_prefix(stored, llm, cs, cs.len() as int);
    assert(cs.subrange(0, cs.len() as int) =~= cs);
    assert(llm.providers.len() == cs.len());
    assert(resolved_set(stored, llm, true) =~= cs);
    assert(new_llm_spec(stored, body, true, true) == cs);
}

/// Env precedence at startup and when saving: a persisted value wins over
/// env, env fills only an empty value; and what is saved never carries the
/// env value itself (a resolved value equal to it is saved as unset, any
/// other value is saved as it is).
pub proof fn law_env_fills_and_is_never_saved(value: Seq<char>, env: Option<Seq<char>>, resolved: Seq<char>)
    ensures
        value.len() > 0 ==> env_fallback_spec(value, env) == value,
        value.len() == 0 ==> env_fallback_spec(value, env) == (match env {
            Some(v) => v,
            None => Seq::<char>::empty(),
        }),
        env matches Some(v) ==> (resolved == v ==> strip_env_spec(resolved, env).len() == 0),
        (env matches Some(v) && resolved != v) || env is None ==> strip_env_spec(resolved, env) == resolved,
{
}

} // verus!
