//! The decisions behind the connection-test and model-listing endpoints:
//! which config a test probes, which key a model listing uses, and which
//! URL and token a git platform test reaches. The requests themselves are
//! made by the caller.

use vstd::prelude::*;
use crate::models::{llm_views, platform_views, string_views, GitPlatformConfig, GitPlatformView, LLMConfig, LlmConfigView, Temperature};
use crate::text::{copy_str, lemma_lex_total_ordering, lex_le, lex_order, str_eq, str_le, trim_end_char_spec, trim_spec, trim_url};
use vstd::relations::sorted_by;
use super::{blank_or_masked, is_blank_or_masked};
use super::types::default_api_base_spec;

verus! {

/// A connection test of an unsaved provider config.
#[derive(Debug)]
pub struct TestConfigRequest {
    pub provider: String,
    pub model: String,
    pub api_key: String,
    pub api_base: String,
}

impl TestConfigRequest {
    /// The config the test probes (4096 tokens, temperature 0.3, enabled).
    pub fn probe_config(&self) -> (r: LLMConfig)
        ensures
            r@.provider == self.provider@,
            r@.model == self.model@,
            r@.api_key == self.api_key@,
            r@.api_base == self.api_base@,
            r@.max_tokens == 4096,
            r@.temperature == (Temperature { bits: 0x3E99_999A }),
            r@.disable_thinking.is_none(),
            !r@.disabled,
    {
        LLMConfig {
            provider: copy_str(self.provider.as_str()),
            model: copy_str(self.model.as_str()),
            api_key: copy_str(self.api_key.as_str()),
            api_base: copy_str(self.api_base.as_str()),
            max_tokens: 4096,
            temperature: Temperature { bits: 0x3E99_999A },
            disable_thinking: None,
            disabled: false,
        }
    }
}

/// A model listing request.
#[derive(Debug)]
pub struct ModelsRequest {
    pub api_base: String,
    pub api_key: String,
}

/// The first stored card with exactly this API base.
pub open spec fn card_with_base(cs: Seq<LlmConfigView>, base: Seq<char>, i: int) -> Option<int>
    decreases cs.len() - i,
{
    if i < 0 || i >= cs.len() {
        None
    } else if cs[i].api_base == base {
        Some(i)
    } else {
        card_with_base(cs, base, i + 1)
    }
}

/// The base URL and key a model listing uses: the OpenAI base when none is
/// given; a blank or masked key resolves to the key of the first stored
/// card with the same base (the submitted value when there is none).
pub open spec fn models_target_spec(req_base: Seq<char>, req_key: Seq<char>, cs: Seq<LlmConfigView>) -> (Seq<char>, Seq<char>) {
    (
        if req_base.len() == 0 {
            default_api_base_spec()
        } else {
            req_base
        },
        if blank_or_masked(req_key) {
            match card_with_base(cs, req_base, 0) {
                Some(i) => cs[i].api_key,
                None => req_key,
            }
        } else {
            req_key
        },
    )
}

proof fn lemma_card_with_base(cs: Seq<LlmConfigView>, base: Seq<char>, i: int)
    requires
        0 <= i,
    ensures
        match card_with_base(cs, base, i) {
            Some(j) => i <= j < cs.len() && cs[j].api_base == base && forall|k: int| i <= k < j ==> (#[trigger] cs[k]).api_base != base,
            None => forall|k: int| i <= k < cs.len() ==> (#[trigger] cs[k]).api_base != base,
        },
    decreases cs.len() - i,
{
    if i < cs.len() && cs[i].api_base != base {
        lemma_card_with_base(cs, base, i + 1);
    }
}

/// The key a model listing sends: a real submitted key as it is; a blank or
/// masked one is the key of the first stored card with exactly the submitted
/// base, else the submitted value. The base is the submitted one, or the
/// OpenAI base when none is given.
pub proof fn law_models_listing_key(req_base: Seq<char>, req_key: Seq<char>, cs: Seq<LlmConfigView>)
    ensures
        ({
            let (base, key) = models_target_spec(req_base, req_key, cs);
            &&& req_base.len() > 0 ==> base == req_base
            &&& req_base.len() == 0 ==> base == default_api_base_spec()
            &&& !blank_or_masked(req_key) ==> key == req_key
            &&& blank_or_masked(req_key) ==> ((exists|i: int| 0 <= i < cs.len() && (#[trigger] cs[i]).api_base == req_base)
                ==> exists|i: int|
                0 <= i < cs.len() && (#[trigger] cs[i]).api_base == req_base && key == cs[i].api_key && forall|j: int|
                    0 <= j < i ==> (#[trigger] cs[j]).api_base != req_base)
            &&& blank_or_masked(req_key) && (forall|i: int| 0 <= i < cs.len() ==> (#[trigger] cs[i]).api_base != req_base)
                ==> key == req_key
        }),
{
    lemma_card_with_base(cs, req_base, 0);
}

proof fn lemma_first_platform(ps: Seq<GitPlatformView>, pred: spec_fn(GitPlatformView) -> bool, i: int)
    requires
        0 <= i,
    ensures
        match first_platform(ps, pred, i) {
            Some(j) => i <= j < ps.len() && pred(ps[j]),
            None => forall|k: int| i <= k < ps.len() ==> !pred(#[trigger] ps[k]),
        },
    decreases ps.len() - i,
{
    if i < ps.len() && !pred(ps[i]) {
        lemma_first_platform(ps, pred, i + 1);
    }
}

/// The token a platform test sends: a real submitted token as it is; a
/// blank or masked one is the token of a stored entry with the submitted id
/// (when one is given and stored) or else with the submitted base URL, and
/// the submitted value when no stored entry matches either way.
pub proof fn law_platform_test_token(ps: Seq<GitPlatformView>, id: Seq<char>, base_raw: Seq<char>, token: Seq<char>)
    ensures
        ({
            let t = probe_token_spec(ps, id, base_raw, token);
            let base = norm_url(base_raw);
            &&& !blank_or_masked(token) ==> t == token
            &&& blank_or_masked(token) && id.len() > 0 && (exists|i: int| 0 <= i < ps.len() && (#[trigger] ps[i]).id == id)
                ==> exists|i: int| 0 <= i < ps.len() && (#[trigger] ps[i]).id == id && t == ps[i].token
            &&& blank_or_masked(token) && (id.len() == 0 || forall|i: int| 0 <= i < ps.len() ==> (#[trigger] ps[i]).id != id)
                && (exists|i: int| 0 <= i < ps.len() && (#[trigger] ps[i]).base_url == base) ==> exists|i: int|
                0 <= i < ps.len() && (#[trigger] ps[i]).base_url == base && t == ps[i].token
            &&& blank_or_masked(token) && (id.len() == 0 || forall|i: int| 0 <= i < ps.len() ==> (#[trigger] ps[i]).id != id)
                && (forall|i: int| 0 <= i < ps.len() ==> (#[trigger] ps[i]).base_url != base) ==> t == token
        }),
{
    let base = norm_url(base_raw);
    let by_id = |p: GitPlatformView| p.id == id;
    let by_base = |p: GitPlatformView| p.base_url == base;
    lemma_first_platform(ps, by_id, 0);
    lemma_first_platform(ps, by_base, 0);
    if exists|i: int| 0 <= i < ps.len() && (#[trigger] ps[i]).id == id {
        let i = choose|i: int| 0 <= i < ps.len() && (#[trigger] ps[i]).id == id;
        assert(by_id(ps[i]));
    }
    if exists|i: int| 0 <= i < ps.len() && (#[trigger] ps[i]).base_url == base {
        let i = choose|i: int| 0 <= i < ps.len() && (#[trigger] ps[i]).base_url == base;
        assert(by_base(ps[i]));
    }
}

impl ModelsRequest {
    pub fn target(&self, configs: &Vec<LLMConfig>) -> (r: (String, String))
        ensures
            (r.0@, r.1@) == models_target_spec(self.api_base@, self.api_key@, llm_views(configs@)),
    {
        let base = if self.api_base.as_str().is_empty() {
            super::types::default_api_base_url()
        } else {
            copy_str(self.api_base.as_str())
        };
        let key = if is_blank_or_masked(self.api_key.as_str()) {
            let ghost cs = llm_views(configs@);
            let mut found: Option<usize> = None;
            let mut i: usize = configs.len();
            while i > 0
                invariant
                    i <= configs@.len(),
                    cs == llm_views(configs@),
                    match found {
                        Some(j) => card_with_base(cs, self.api_base@, i as int) == Some(j as int) && j < configs@.len(),
                        None => card_with_base(cs, self.api_base@, i as int).is_none(),
                    },
                decreases i,
            {
                i = i - 1;
                assert(cs[i as int] == configs@[i as int]@);
                if str_eq(configs[i].api_base.as_str(), self.api_base.as_str()) {
                    found = Some(i);
                }
            }
            match found {
                Some(j) => {
                    assert(cs[j as int] == configs@[j as int]@);
                    copy_str(configs[j].api_key.as_str())
                },
                None => copy_str(self.api_key.as_str()),
            }
        } else {
            copy_str(self.api_key.as_str())
        };
        (base, key)
    }
}

/// A git platform connection test.
#[derive(Debug)]
pub struct TestGitPlatformRequest {
    pub base_url: String,
    pub token: String,
    pub id: String,
    pub internal_base_url: String,
}

/// Trimmed, without trailing slashes.
pub open spec fn norm_url(s: Seq<char>) -> Seq<char> {
    trim_end_char_spec(trim_spec(s), '/')
}

/// The first stored platform satisfying `pred` at or after `i`.
pub open spec fn first_platform(ps: Seq<GitPlatformView>, pred: spec_fn(GitPlatformView) -> bool, i: int) -> Option<int>
    decreases ps.len() - i,
{
    if i < 0 || i >= ps.len() {
        None
    } else if pred(ps[i]) {
        Some(i)
    } else {
        first_platform(ps, pred, i + 1)
    }
}

/// The stored entry a test is about: by id when one is given (falling back
/// to the base URL), else by base URL.
pub open spec fn stored_entry(ps: Seq<GitPlatformView>, id: Seq<char>, base: Seq<char>) -> Option<int> {
    let by_base = first_platform(ps, |p: GitPlatformView| p.base_url == base, 0);
    if id.len() == 0 {
        by_base
    } else {
        match first_platform(ps, |p: GitPlatformView| p.id == id, 0) {
            Some(i) => Some(i),
            None => by_base,
        }
    }
}

/// What a git platform test reaches and with which token.
#[derive(Debug)]
pub struct GitProbePlan {
    /// The normalised base URL (the entry's identity in the health cache).
    pub base: String,
    /// The URL probed: the submitted internal URL, else the stored entry's
    /// internal URL, else the base URL.
    pub probe_target: String,
    /// `true` when the probe target is the base URL (else the internal URL).
    pub target_is_base: bool,
    /// The token used: a blank or masked submission resolves to the stored
    /// entry's token.
    pub token: String,
}

pub open spec fn probe_target_spec(ps: Seq<GitPlatformView>, id: Seq<char>, base_raw: Seq<char>, internal_raw: Seq<char>) -> Seq<char> {
    let base = norm_url(base_raw);
    let submitted = norm_url(internal_raw);
    if submitted.len() > 0 {
        submitted
    } else {
        match stored_entry(ps, id, base) {
            Some(i) => if norm_url(ps[i].internal_base_url).len() == 0 {
                base
            } else {
                norm_url(ps[i].internal_base_url)
            },
            None => base,
        }
    }
}

pub open spec fn probe_token_spec(ps: Seq<GitPlatformView>, id: Seq<char>, base_raw: Seq<char>, token: Seq<char>) -> Seq<char> {
    if blank_or_masked(token) {
        match stored_entry(ps, id, norm_url(base_raw)) {
            Some(i) => ps[i].token,
            None => token,
        }
    } else {
        token
    }
}

fn find_platform_by_base(platforms: &Vec<GitPlatformConfig>, base: &str) -> (r: Option<usize>)
    ensures
        match r {
            Some(i) => first_platform(platform_views(platforms@), |p: GitPlatformView| p.base_url == base@, 0) == Some(
                i as int,
            ) && i < platforms@.len(),
            None => first_platform(platform_views(platforms@), |p: GitPlatformView| p.base_url == base@, 0).is_none(),
        },
{
    let ghost ps = platform_views(platforms@);
    let ghost pred = |p: GitPlatformView| p.base_url == base@;
    let mut found: Option<usize> = None;
    let mut i: usize = platforms.len();
    while i > 0
        invariant
            i <= platforms@.len(),
            ps == platform_views(platforms@),
            pred == (|p: GitPlatformView| p.base_url == base@),
            match found {
                Some(j) => first_platform(ps, pred, i as int) == Some(j as int) && j < platforms@.len(),
                None => first_platform(ps, pred, i as int).is_none(),
            },
        decreases i,
    {
        i = i - 1;
        assert(ps[i as int] == platforms@[i as int]@);
        if str_eq(platforms[i].base_url.as_str(), base) {
            found = Some(i);
        }
    }
    found
}

fn find_platform_by_id(platforms: &Vec<GitPlatformConfig>, id: &str) -> (r: Option<usize>)
    ensures
        match r {
            Some(i) => first_platform(platform_views(platforms@), |p: GitPlatformView| p.id == id@, 0) == Some(i as int)
                && i < platforms@.len(),
            None => first_platform(platform_views(platforms@), |p: GitPlatformView| p.id == id@, 0).is_none(),
        },
{
    let ghost ps = platform_views(platforms@);
    let ghost pred = |p: GitPlatformView| p.id == id@;
    let mut found: Option<usize> = None;
    let mut i: usize = platforms.len();
    while i > 0
        invariant
            i <= platforms@.len(),
            ps == platform_views(platforms@),
            pred == (|p: GitPlatformView| p.id == id@),
            match found {
                Some(j) => first_platform(ps, pred, i as int) == Some(j as int) && j < platforms@.len(),
                None => first_platform(ps, pred, i as int).is_none(),
            },
        decreases i,
    {
        i = i - 1;
        assert(ps[i as int] == platforms@[i as int]@);
        if str_eq(platforms[i].id.as_str(), id) {
            found = Some(i);
        }
    }
    found
}

impl TestGitPlatformRequest {
    /// Plan the test: refused (with the message) when the base URL is blank;
    /// otherwise the normalised base, the probe target and the token.
    pub fn plan(&self, platforms: &Vec<GitPlatformConfig>) -> (r: Result<GitProbePlan, String>)
        ensures
            ({
                let ps = platform_views(platforms@);
                match r {
                    Err(m) => norm_url(self.base_url@).len() == 0 && m@ == "baseUrl is required"@,
                    Ok(p) => {
                        &&& norm_url(self.base_url@).len() > 0
                        &&& p.base@ == norm_url(self.base_url@)
                        &&& p.probe_target@ == probe_target_spec(ps, self.id@, self.base_url@, self.internal_base_url@)
                        &&& p.target_is_base == (p.probe_target@ == p.base@)
                        &&& p.token@ == probe_token_spec(ps, self.id@, self.base_url@, self.token@)
                    },
                }
            }),
    {
        let ghost ps = platform_views(platforms@);
        let base = trim_url(self.base_url.as_str());
        if base.as_str().is_empty() {
            return Err(String::from_str("baseUrl is required"));
        }
        let by_base = find_platform_by_base(platforms, base.as_str());
        let stored: Option<usize> = if self.id.as_str().is_empty() {
            by_base
        } else {
            match find_platform_by_id(platforms, self.id.as_str()) {
                Some(i) => Some(i),
                None => by_base,
            }
        };
        let submitted_internal = trim_url(self.internal_base_url.as_str());
        let probe_target = if !submitted_internal.as_str().is_empty() {
            submitted_internal
        } else {
            match stored {
                Some(i) => {
                    assert(ps[i as int] == platforms@[i as int]@);
                    let entry_internal = trim_url(platforms[i].internal_base_url.as_str());
                    if entry_internal.as_str().is_empty() {
                        copy_str(base.as_str())
                    } else {
                        entry_internal
                    }
                },
                None => copy_str(base.as_str()),
            }
        };
        let token = if is_blank_or_masked(self.token.as_str()) {
            match stored {
                Some(i) => {
                    assert(ps[i as int] == platforms@[i as int]@);
                    copy_str(platforms[i].token.as_str())
                },
                None => copy_str(self.token.as_str()),
            }
        } else {
            copy_str(self.token.as_str())
        };
        let target_is_base = str_eq(probe_target.as_str(), base.as_str());
        Ok(GitProbePlan { base, probe_target, target_is_base, token })
    }
}

/// The model ids of a listing in `str` order (`Vec<String>::sort`):
/// the same ids, each as often as listed, sorted.
pub fn sorted_model_ids(ids: &Vec<String>) -> (r: Vec<String>)
    ensures
        string_views(r@) == string_views(ids@).sort_by(lex_order()),
{
    let ghost src = string_views(ids@);
    let mut out: Vec<String> = Vec::new();
    let mut i: usize = 0;
    proof {
        lemma_lex_total_ordering();
        assert(string_views(out@) =~= Seq::<Seq<char>>::empty());
        assert(src.subrange(0, 0) =~= Seq::<Seq<char>>::empty());
    }
    while i < ids.len()
        invariant
            i <= ids@.len(),
            src == string_views(ids@),
            vstd::relations::total_ordering(lex_order()),
            sorted_by(string_views(out@), lex_order()),
            string_views(out@).to_multiset() == src.subrange(0, i as int).to_multiset(),
        decreases ids@.len() - i,
    {
        let id = &ids[i];
        let ghost sv = string_views(out@);
        let mut pos: usize = 0;
        while pos < out.len() && str_le(out[pos].as_str(), id.as_str())
            invariant
                pos <= out@.len(),
                sv == string_views(out@),
                forall|k: int| 0 <= k < pos ==> lex_le(#[trigger] sv[k], id@),
            decreases out@.len() - pos,
        {
            assert(sv[pos as int] == out@[pos as int]@);
            pos = pos + 1;
        }
        let ghost x = id@;
        proof {
            assert forall|k: int| pos <= k < sv.len() implies lex_le(x, #[trigger] sv[k]) by {
                assert(sv[pos as int] == out@[pos as int]@);
                assert(!lex_le(sv[pos as int], x));
                assert(lex_order()(sv[pos as int], x) || lex_order()(x, sv[pos as int]));
                if k > pos {
                    assert(lex_order()(sv[pos as int], sv[k]));
                }
                assert(lex_order()(x, sv[pos as int]) && lex_order()(sv[pos as int], sv[k]) ==> lex_order()(x, sv[k]));
            }
        }
        out.insert(pos, copy_str(id.as_str()));
        proof {
            let nv = string_views(out@);
            assert(nv =~= sv.insert(pos as int, x));
            assert forall|a: int, b: int| 0 <= a < b < nv.len() implies #[trigger] lex_order()(nv[a], nv[b]) by {
                if b < pos {
                    assert(lex_order()(sv[a], sv[b]));
                } else if b == pos {
                    assert(lex_le(sv[a], x));
                } else if a == pos {
                    assert(lex_le(x, sv[b - 1]));
                } else if a < pos {
                    assert(lex_order()(sv[a], sv[b - 1]));
                } else {
                    assert(lex_order()(sv[a - 1], sv[b - 1]));
                }
            }
            vstd::seq_lib::to_multiset_insert(sv, pos as int, x);
            assert(src.subrange(0, i + 1) =~= src.subrange(0, i as int).push(x));
            vstd::seq_lib::to_multiset_build(src.subrange(0, i as int), x);
        }
        i = i + 1;
    }
    proof {
        assert(src.subrange(0, src.len() as int) =~= src);
        src.lemma_sort_by_ensures(lex_order());
        vstd::seq_lib::lemma_sorted_unique(string_views(out@), src.sort_by(lex_order()), lex_order());
    }
    out
}

} // verus!
