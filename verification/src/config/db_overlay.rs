//! The database-over-file configuration overlay: the values the database
//! carries override the file-resolved configuration key by key, and a key the
//! database does not carry keeps its file value. Reading the database is the
//! caller's part; this module decides what lands where.

use vstd::prelude::*;
use crate::models::{copy_llm_list, llm_views, AppConfig, AppConfigView, GitPlatformConfig, LLMConfig, LlmConfigView};
use super::persist::{env_fallback, env_fallback_spec, env_opt, PersistedGitlabConfig, UiStateEnvOverrides};
use super::types::{UiConfig, UiConfigView};

verus! {

/// What the database contributed.
#[derive(Debug)]
pub struct AppliedDbOverrides {
    /// The persisted UI projection; `None` when the database has none.
    pub ui: Option<UiConfig>,
    /// The provider chain that landed on the configuration (empty when the
    /// database has no keyed provider or env supplied the chain).
    pub llm: Vec<LLMConfig>,
    /// The git platform set the database carries.
    pub git_platforms: Vec<GitPlatformConfig>,
    /// The legacy GitLab credentials, database value first, env as fallback.
    pub gitlab: PersistedGitlabConfig,
    /// How many expert entries the persisted overrides patched.
    pub experts_patched: usize,
}

impl AppliedDbOverrides {
    /// True when the database carried no configuration at all.
    pub fn is_empty(&self) -> (r: bool)
        ensures
            r == (self.ui.is_none() && self.llm@.len() == 0 && self.git_platforms@.len() == 0 && self.gitlab.token@.len()
                == 0 && self.gitlab.webhook_secret@.len() == 0 && self.gitlab.webhook_signing_secret@.len() == 0
                && self.experts_patched == 0),
    {
        self.ui.is_none() && self.llm.len() == 0 && self.git_platforms.len() == 0 && self.gitlab.token.as_str().is_empty()
            && self.gitlab.webhook_secret.as_str().is_empty() && self.gitlab.webhook_signing_secret.as_str().is_empty()
            && self.experts_patched == 0
    }
}

/// The keyed providers of `cs`, in order (a keyless card never reaches the
/// chain).
pub open spec fn keyed_cards(cs: Seq<LlmConfigView>) -> Seq<LlmConfigView>
    decreases cs.len(),
{
    if cs.len() == 0 {
        cs
    } else {
        let r = keyed_cards(cs.drop_last());
        if cs.last().api_key.len() > 0 {
            r.push(cs.last())
        } else {
            r
        }
    }
}

/// The configuration after the overlay.
pub open spec fn overlaid(config: AppConfigView, ui: Option<UiConfigView>, usable: Seq<LlmConfigView>, llm_from_env: bool) -> AppConfigView {
    let c1 = match ui {
        Some(u) => AppConfigView {
            max_concurrent_llm_calls: Some(u.advanced.max_concurrent_reviews as usize),
            max_team_size: Some(u.advanced.max_concurrent_reviews as usize),
            report_aggregated: match u.aggregated {
                Some(a) => a,
                None => config.report_aggregated,
            },
            ..config
        },
        None => config,
    };
    if !llm_from_env && usable.len() > 0 {
        AppConfigView { llm: usable, ..c1 }
    } else {
        c1
    }
}

/// Overlay what the database carries onto `config`: the UI row's
/// concurrency cap (both caps) and decided aggregation flag, and the keyed
/// stored providers unless env supplied the chain. The platform set and
/// the GitLab credentials (env filling empty values) are returned, as is
/// the number of expert entries the caller's expert overrides patched.
pub fn apply_db_overrides(
    config: &mut AppConfig,
    ui: Option<UiConfig>,
    stored_llm: Vec<LLMConfig>,
    git_platforms: Vec<GitPlatformConfig>,
    stored_gitlab: PersistedGitlabConfig,
    experts_patched: usize,
    env: &UiStateEnvOverrides,
) -> (r: AppliedDbOverrides)
    ensures
        ({
            let usable = keyed_cards(llm_views(stored_llm@));
            let uiv = match ui {
                Some(u) => Some(u@),
                None => None,
            };
            &&& final(config)@ == overlaid(old(config)@, uiv, usable, env.llm_from_env)
            &&& llm_views(r.llm@) == (if !env.llm_from_env && usable.len() > 0 {
                usable
            } else {
                Seq::empty()
            })
            &&& match (r.ui, ui) {
                (Some(a), Some(b)) => a@ == b@,
                (None, None) => true,
                _ => false,
            }
            &&& r.git_platforms@ == git_platforms@
            &&& r.gitlab.token@ == env_fallback_spec(stored_gitlab.token@, env_opt(env.gitlab_token))
            &&& r.gitlab.webhook_secret@ == env_fallback_spec(stored_gitlab.webhook_secret@, env_opt(env.gitlab_webhook_secret))
            &&& r.gitlab.webhook_signing_secret@ == env_fallback_spec(
                stored_gitlab.webhook_signing_secret@,
                env_opt(env.gitlab_webhook_signing_secret),
            )
            &&& r.experts_patched == experts_patched
        }),
{
    match &ui {
        Some(u) => {
            let concurrency = u.advanced.max_concurrent_reviews as usize;
            config.max_concurrent_llm_calls = Some(concurrency);
            config.max_team_size = Some(concurrency);
            match u.aggregated {
                Some(a) => {
                    config.report_aggregated = a;
                },
                None => {},
            }
        },
        None => {},
    }
    let mut applied_llm: Vec<LLMConfig> = Vec::new();
    if !env.llm_from_env {
        let ghost src = llm_views(stored_llm@);
        let mut usable: Vec<LLMConfig> = Vec::new();
        let mut i: usize = 0;
        while i < stored_llm.len()
            invariant
                i <= stored_llm@.len(),
                src == llm_views(stored_llm@),
                llm_views(usable@) == keyed_cards(src.subrange(0, i as int)),
            decreases stored_llm@.len() - i,
        {
            proof {
                let p = src.subrange(0, i + 1);
                assert(p.drop_last() =~= src.subrange(0, i as int));
                assert(p.last() == stored_llm@[i as int]@);
            }
            if !stored_llm[i].api_key.as_str().is_empty() {
                let ghost before = llm_views(usable@);
                usable.push(stored_llm[i].copy());
                assert(llm_views(usable@) =~= before.push(stored_llm@[i as int]@));
            }
            i = i + 1;
        }
        assert(src.subrange(0, stored_llm@.len() as int) =~= src);
        if usable.len() > 0 {
            config.llm = copy_llm_list(&usable);
            applied_llm = usable;
        }
    }
    proof {
        if !(!env.llm_from_env && keyed_cards(llm_views(stored_llm@)).len() > 0) {
            assert(llm_views(applied_llm@) =~= Seq::<LlmConfigView>::empty());
        }
    }
    let gitlab = PersistedGitlabConfig {
        token: env_fallback(stored_gitlab.token.as_str(), &env.gitlab_token),
        webhook_secret: env_fallback(stored_gitlab.webhook_secret.as_str(), &env.gitlab_webhook_secret),
        webhook_signing_secret: env_fallback(stored_gitlab.webhook_signing_secret.as_str(), &env.gitlab_webhook_signing_secret),
    };
    AppliedDbOverrides { ui, llm: applied_llm, git_platforms, gitlab, experts_patched }
}

/// The overlay's provider filter is on the key alone: a stored card is in
/// the usable chain exactly when it has a key, whatever its `disabled` flag,
/// and the chain keeps the stored order (it is a subsequence of the stored
/// cards, no longer than them).
pub proof fn law_keyed_cards_filter_on_the_key_only(cs: Seq<LlmConfigView>, c: LlmConfigView)
    ensures
        keyed_cards(cs).contains(c) <==> (cs.contains(c) && c.api_key.len() > 0),
        keyed_cards(cs).len() <= cs.len(),
        (forall|i: int| 0 <= i < cs.len() ==> (#[trigger] cs[i]).api_key.len() > 0) ==> keyed_cards(cs) == cs,
    decreases cs.len(),
{
    if cs.len() > 0 {
        let t = cs.drop_last();
        law_keyed_cards_filter_on_the_key_only(t, c);
        assert(cs =~= t.push(cs.last()));
        let r = keyed_cards(t);
        let last = cs.last();
        if cs.contains(c) && c.api_key.len() > 0 {
            let j = choose|j: int| 0 <= j < cs.len() && cs[j] == c;
            if j < t.len() {
                assert(t[j] == c);
                assert(r.contains(c));
                if last.api_key.len() > 0 {
                    let k = choose|k: int| 0 <= k < r.len() && r[k] == c;
                    assert(r.push(last)[k] == c);
                }
            } else {
                assert(c == last);
                assert(r.push(last)[r.len() as int] == c);
            }
        }
        if keyed_cards(cs).contains(c) {
            let k = choose|k: int| 0 <= k < keyed_cards(cs).len() && keyed_cards(cs)[k] == c;
            if last.api_key.len() > 0 && k == r.len() {
                assert(c == last);
                assert(cs[cs.len() - 1] == c);
            } else {
                if last.api_key.len() > 0 {
                    assert(r.push(last)[k] == r[k]);
                }
                assert(r.contains(c));
                let j = choose|j: int| 0 <= j < t.len() && t[j] == c;
                assert(cs[j] == c);
            }
        }
        if forall|i: int| 0 <= i < cs.len() ==> (#[trigger] cs[i]).api_key.len() > 0 {
            assert forall|i: int| 0 <= i < t.len() implies (#[trigger] t[i]).api_key.len() > 0 by {
                assert(t[i] == cs[i]);
            }
        }
    }
}

/// At startup, when env does not supply the chain and some stored card has a
/// key, the overlaid configuration's providers are exactly the keyed stored
/// cards: a disabled keyed card stays in its slot (disabled), a keyless one
/// is left out.
pub proof fn law_overlay_keeps_every_keyed_card(
    config: AppConfigView,
    ui: Option<UiConfigView>,
    stored: Seq<LlmConfigView>,
    c: LlmConfigView,
)
    requires
        exists|i: int| 0 <= i < stored.len() && (#[trigger] stored[i]).api_key.len() > 0,
    ensures
        overlaid(config, ui, keyed_cards(stored), false).llm.contains(c) <==> (stored.contains(c) && c.api_key.len() > 0),
{
    let i = choose|i: int| 0 <= i < stored.len() && (#[trigger] stored[i]).api_key.len() > 0;
    law_keyed_cards_filter_on_the_key_only(stored, stored[i]);
    law_keyed_cards_filter_on_the_key_only(stored, c);
    assert(keyed_cards(stored).contains(stored[i]));
}

} // verus!
