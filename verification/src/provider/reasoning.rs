//! Reasoning switched off: which route documents a way to do it, and whether a
//! request and an answer keep to it.
use vstd::prelude::*;
use vstd::string::*;
use vstd::utf8::*;

use crate::json;
use crate::json::{Json, Tree};
use crate::provider::types::{ErrorView, ProviderError, ProviderEvent, ProviderKind, StreamView};
use crate::text;
use crate::url;

verus! {

/// The backend that serves OAuth accounts of OpenAI.
pub const CODEX_BACKEND_ENDPOINT: &'static str = "https://chatgpt.com/backend-api";

/// How a request says that there is to be no reasoning.
#[derive(Clone, Copy, Debug, PartialEq, Eq, Structural)]
pub enum ReasoningOff {
    /// Chat completions: `reasoning_effort: "none"`.
    EffortNone,
    /// `thinking: {"type": "disabled"}`, for models that think unless told not to.
    ThinkingDisabled,
    /// Responses: `reasoning: {"effort": "none"}`.
    ResponsesEffortNone,
}

/// The host of an endpoint, where it is a URL with one.
pub open spec fn host_of(endpoint: Seq<char>) -> Option<Seq<char>> {
    match url::parsed_url(endpoint) {
        Ok(v) => v.host,
        Err(_) => None,
    }
}

pub open spec fn host_is(host: Option<Seq<char>>, expected: Seq<char>) -> bool {
    host matches Some(h) && text::lower(h) == text::lower(expected)
}

fn is_host(host: Option<&str>, expected: &str) -> (r: bool)
    ensures
        r == host_is(url::opt_view(host), expected@),
{
    match host {
        Some(h) => text::same_ignoring_case(h, expected),
        None => false,
    }
}

/// The name of a model without its vendor.
pub open spec fn model_name(model: Seq<char>) -> Seq<char> {
    text::last_part(model, '/')
}

pub open spec fn named(model: Seq<char>, name: Seq<char>) -> bool {
    text::lower(model_name(model)) == text::lower(name)
}

fn is_named(model: &str, name: &str) -> (r: bool)
    ensures
        r == named(model@, name@),
{
    let own = text::after_last(model, '/');
    text::same_ignoring_case(own.as_str(), name)
}

/// Models of DeepSeek that think unless told not to.
pub open spec fn deepseek_model(model: Seq<char>) -> bool {
    named(model, "deepseek-flash"@) || text::starts_with(
        text::lower(model_name(model)),
        "deepseek-v4"@,
    )
}

pub fn is_deepseek_model(model: &str) -> (r: bool)
    ensures
        r == deepseek_model(model@),
{
    let own = text::after_last(model, '/');
    let lower = text::lowered(own.as_str());
    is_named(model, "deepseek-flash") || text::begins(lower.as_str(), "deepseek-v4")
}

/// Models of GLM whose thinking can be switched off.
pub open spec fn glm_toggle(model: Seq<char>) -> bool {
    named(model, "glm-5"@) || named(model, "glm-5.1"@) || named(model, "glm-5.2"@) || named(
        model,
        "glm-5.2-fast"@,
    )
}

pub fn is_glm_thinking_toggle(model: &str) -> (r: bool)
    ensures
        r == glm_toggle(model@),
{
    is_named(model, "glm-5") || is_named(model, "glm-5.1") || is_named(model, "glm-5.2")
        || is_named(model, "glm-5.2-fast")
}

/// Models of Kimi whose thinking can be switched off.
pub open spec fn kimi_toggle(model: Seq<char>) -> bool {
    named(model, "kimi-k2.5"@) || named(model, "kimi-k2.6"@)
}

pub fn is_kimi_thinking_toggle(model: &str) -> (r: bool)
    ensures
        r == kimi_toggle(model@),
{
    is_named(model, "kimi-k2.5") || is_named(model, "kimi-k2.6")
}

/// Models whose way to switch thinking off is the `thinking` field.
pub open spec fn thinking_toggle(model: Seq<char>) -> bool {
    deepseek_model(model) || glm_toggle(model) || kimi_toggle(model)
}

pub fn uses_thinking_toggle(model: &str) -> (r: bool)
    ensures
        r == thinking_toggle(model@),
{
    is_deepseek_model(model) || is_glm_thinking_toggle(model) || is_kimi_thinking_toggle(model)
}

/// Models that think whatever a request says.
pub open spec fn always_thinks(model: Seq<char>) -> bool {
    ||| named(model, "glm-5.3"@)
    ||| named(model, "glm-5.3-flash"@)
    ||| named(model, "kimi-k3"@)
    ||| named(model, "kimi-k2.7-code"@)
    ||| named(model, "kimi-k2.7-code-highspeed"@)
    ||| named(model, "minimax-m2"@)
    ||| named(model, "minimax-m2.5"@)
    ||| named(model, "minimax-m2.7"@)
}

pub fn is_always_thinking(model: &str) -> (r: bool)
    ensures
        r == always_thinks(model@),
{
    is_named(model, "glm-5.3") || is_named(model, "glm-5.3-flash") || is_named(model, "kimi-k3")
        || is_named(model, "kimi-k2.7-code") || is_named(model, "kimi-k2.7-code-highspeed")
        || is_named(model, "minimax-m2") || is_named(model, "minimax-m2.5") || is_named(
        model,
        "minimax-m2.7",
    )
}

/// A name under the brand of Anthropic's models, which names write in small letters.
pub open spec fn branded(brand: Seq<char>, tail: Seq<char>) -> Seq<char> {
    text::lower(brand) + tail
}

pub(crate) fn branded_text(brand: &str, tail: &str) -> (r: String)
    ensures
        r@ == branded(brand@, tail@),
{
    let mut r = text::lowered(brand);
    r.append(tail);
    r
}

/// Models of Anthropic whose documentation does not reject a disabled `thinking`
/// field. Fable and Mythos always think.
pub open spec fn anthropic_toggle(model: Seq<char>, brand: Seq<char>) -> bool {
    ||| text::starts_with(model, branded(brand, "-haiku-4-5"@))
    ||| model == branded(brand, "-sonnet-5"@)
    ||| model == branded(brand, "-opus-5"@)
    ||| model == branded(brand, "-opus-4-8"@)
    ||| model == branded(brand, "-opus-4-7"@)
    ||| model == branded(brand, "-opus-4-6"@)
    ||| model == branded(brand, "-sonnet-4-6"@)
    ||| model == branded(brand, "-opus-4-5"@)
    ||| model == branded(brand, "-sonnet-4-5"@)
}

fn is_branded(model: &str, brand: &str, tail: &str) -> (r: bool)
    ensures
        r == (model@ == branded(brand@, tail@)),
{
    text::same(model, branded_text(brand, tail).as_str())
}

pub fn is_thinking_disabled_anthropic(model: &str, brand: &str) -> (r: bool)
    ensures
        r == anthropic_toggle(model@, brand@),
{
    text::begins(model, branded_text(brand, "-haiku-4-5").as_str()) || is_branded(
        model,
        brand,
        "-sonnet-5",
    ) || is_branded(model, brand, "-opus-5") || is_branded(model, brand, "-opus-4-8")
        || is_branded(model, brand, "-opus-4-7") || is_branded(model, brand, "-opus-4-6")
        || is_branded(model, brand, "-sonnet-4-6") || is_branded(model, brand, "-opus-4-5")
        || is_branded(model, brand, "-sonnet-4-5")
}

/// What the routes are judged by, beside what their vendors document.
pub struct OffPolicy {
    /// Whether a gateway is believed to serve a model as its vendor does.
    pub allow_unverified_gateways: bool,
    /// The brand under which Anthropic names its models, as a text spells it.
    pub brand: String,
}

#[verifier::ext_equal]
pub ghost struct PolicyView {
    pub allow_unverified_gateways: bool,
    pub brand: Seq<char>,
}

impl View for OffPolicy {
    type V = PolicyView;

    open spec fn view(&self) -> PolicyView {
        PolicyView {
            allow_unverified_gateways: self.allow_unverified_gateways,
            brand: self.brand@,
        }
    }
}

impl PolicyView {
    /// Whether the model is of Anthropic and takes a disabled `thinking` field.
    pub open spec fn toggles(self, model: Seq<char>) -> bool {
        anthropic_toggle(model, self.brand)
    }

    /// The same policy with another stand on the gateways.
    pub open spec fn with_gateways(self, allow: bool) -> PolicyView {
        PolicyView { allow_unverified_gateways: allow, ..self }
    }
}

impl OffPolicy {
    pub fn new(allow_unverified_gateways: bool, brand: String) -> (r: Self)
        ensures
            r@ == (PolicyView { allow_unverified_gateways, brand: brand@ }),
    {
        OffPolicy { allow_unverified_gateways, brand }
    }
}

/// Models of OpenAI that take no reasoning over the Responses wire.
pub open spec fn gpt_family(model: Seq<char>) -> bool {
    model == "gpt-5.6-sol"@ || model == "gpt-5.6-terra"@ || model == "gpt-5.6-luna"@
}

fn is_gpt_family(model: &str) -> (r: bool)
    ensures
        r == gpt_family(model@),
{
    text::same(model, "gpt-5.6-sol") || text::same(model, "gpt-5.6-terra") || text::same(
        model,
        "gpt-5.6-luna",
    )
}

/// Community gateways, whose format of reasoning is not the vendor's.
pub open spec fn known_gateway(host: Option<Seq<char>>) -> bool {
    host_is(host, "opencode.ai"@) || host_is(host, "api.commandcode.ai"@) || host_is(
        host,
        "api.cline.bot"@,
    )
}

fn is_known_gateway(host: Option<&str>) -> (r: bool)
    ensures
        r == known_gateway(url::opt_view(host)),
{
    is_host(host, "opencode.ai") || is_host(host, "api.commandcode.ai") || is_host(
        host,
        "api.cline.bot",
    )
}

/// The documented way to switch reasoning off for a model at a host. The
/// documentation of a vendor holds on the vendor's own endpoint alone; a gateway
/// is believed where that is asked for.
pub open spec fn documented_off(
    kind: ProviderKind,
    host: Option<Seq<char>>,
    model: Seq<char>,
    policy: PolicyView,
) -> Option<ReasoningOff> {
    match kind {
        ProviderKind::OpenAiCompatible => if host_is(host, "api.openai.com"@) && (gpt_family(model)
            || model == "gpt-5.5"@) {
            Some(ReasoningOff::EffortNone)
        } else if host_is(host, "api.deepseek.com"@) && deepseek_model(model) {
            Some(ReasoningOff::ThinkingDisabled)
        } else if host_is(host, "api.z.ai"@) && glm_toggle(model) {
            Some(ReasoningOff::ThinkingDisabled)
        } else if (host_is(host, "api.moonshot.ai"@) || host_is(host, "api.moonshot.cn"@))
            && kimi_toggle(model) {
            Some(ReasoningOff::ThinkingDisabled)
        } else if policy.allow_unverified_gateways && known_gateway(host) && thinking_toggle(model) {
            Some(ReasoningOff::ThinkingDisabled)
        } else {
            None
        },
        ProviderKind::Anthropic => if host_is(host, "api.anthropic.com"@) && policy.toggles(model) {
            Some(ReasoningOff::ThinkingDisabled)
        } else {
            None
        },
        ProviderKind::OpenAiCodex => if host_is(host, "chatgpt.com"@) && gpt_family(model) {
            Some(ReasoningOff::ResponsesEffortNone)
        } else {
            None
        },
        _ => None,
    }
}

/// What is said of a model that always thinks.
pub open spec fn always_thinking_words() -> Seq<char> {
    "Jev requires native reasoning OFF, and this model always thinks: GLM-5.3/5.3-Flash and Kimi K3/K2.7-Code force thinking, and MiniMax M2.x accepts `thinking.type: \"disabled\"` but keeps thinking on. Use another model or leave Jev mode. No fallback was applied."@
}

/// What is said of a route without a documented way.
pub open spec fn undocumented_words(brand: Seq<char>) -> Seq<char> {
    "Jev requires documented native reasoning OFF on a known endpoint. Use the GPT-5.6 family or GPT-5.5 on the official OpenAI API, GPT-5.6 Sol/Terra/Luna on Codex, DeepSeek on api.deepseek.com, GLM on api.z.ai, Kimi on api.moonshot.ai, a documented "@ + brand + " model on the official Anthropic API, or leave Jev mode. Community gateways are refused because their reasoning format is not the vendor's; set SLIM_JEV_GATEWAY_OFF=1 to try them anyway. No fallback was applied."@
}

/// The way to switch reasoning off, or why there is none.
pub open spec fn resolved_off(
    kind: ProviderKind,
    host: Option<Seq<char>>,
    model: Seq<char>,
    policy: PolicyView,
) -> Result<ReasoningOff, Seq<char>> {
    match documented_off(kind, host, model, policy) {
        Some(off) => Ok(off),
        None => if always_thinks(model) {
            Err(always_thinking_words())
        } else {
            Err(undocumented_words(policy.brand))
        },
    }
}

/// A result whose error is an invalid response with the words given.
pub open spec fn is_outcome(
    r: Result<ReasoningOff, ProviderError>,
    expected: Result<ReasoningOff, Seq<char>>,
) -> bool {
    match (r, expected) {
        (Ok(off), Ok(x)) => off == x,
        (Err(error), Err(words)) => error@ == (ErrorView::InvalidResponse { message: words }),
        _ => false,
    }
}

fn documented_off_for(
    kind: ProviderKind,
    host: Option<&str>,
    model: &str,
    policy: &OffPolicy,
) -> (r: Option<ReasoningOff>)
    ensures
        r == documented_off(kind, url::opt_view(host), model@, policy@),
{
    match kind {
        ProviderKind::OpenAiCompatible => {
            if is_host(host, "api.openai.com") && (is_gpt_family(model) || text::same(
                model,
                "gpt-5.5",
            )) {
                Some(ReasoningOff::EffortNone)
            } else if is_host(host, "api.deepseek.com") && is_deepseek_model(model) {
                Some(ReasoningOff::ThinkingDisabled)
            } else if is_host(host, "api.z.ai") && is_glm_thinking_toggle(model) {
                Some(ReasoningOff::ThinkingDisabled)
            } else if (is_host(host, "api.moonshot.ai") || is_host(host, "api.moonshot.cn"))
                && is_kimi_thinking_toggle(model) {
                Some(ReasoningOff::ThinkingDisabled)
            } else if policy.allow_unverified_gateways && is_known_gateway(host) && uses_thinking_toggle(
                model,
            ) {
                Some(ReasoningOff::ThinkingDisabled)
            } else {
                None
            }
        },
        ProviderKind::Anthropic => {
            if is_host(host, "api.anthropic.com") && is_thinking_disabled_anthropic(
                model,
                policy.brand.as_str(),
            ) {
                Some(ReasoningOff::ThinkingDisabled)
            } else {
                None
            }
        },
        ProviderKind::OpenAiCodex => {
            if is_host(host, "chatgpt.com") && is_gpt_family(model) {
                Some(ReasoningOff::ResponsesEffortNone)
            } else {
                None
            }
        },
        _ => None,
    }
}

/// The way to switch reasoning off for a model at a host, or why there is none.
pub fn resolve_reasoning_off_at(
    kind: ProviderKind,
    host: Option<&str>,
    model: &str,
    policy: &OffPolicy,
) -> (r: Result<ReasoningOff, ProviderError>)
    ensures
        is_outcome(
            r,
            resolved_off(kind, url::opt_view(host), model@, policy@),
        ),
{
    match documented_off_for(kind, host, model, policy) {
        Some(off) => Ok(off),
        None => if is_always_thinking(model) {
            Err(
                ProviderError::invalid(
                    "Jev requires native reasoning OFF, and this model always thinks: GLM-5.3/5.3-Flash and Kimi K3/K2.7-Code force thinking, and MiniMax M2.x accepts `thinking.type: \"disabled\"` but keeps thinking on. Use another model or leave Jev mode. No fallback was applied.",
                ),
            )
        } else {
            let mut message = "Jev requires documented native reasoning OFF on a known endpoint. Use the GPT-5.6 family or GPT-5.5 on the official OpenAI API, GPT-5.6 Sol/Terra/Luna on Codex, DeepSeek on api.deepseek.com, GLM on api.z.ai, Kimi on api.moonshot.ai, a documented ".to_owned();
            message.append(policy.brand.as_str());
            message.append(
                " model on the official Anthropic API, or leave Jev mode. Community gateways are refused because their reasoning format is not the vendor's; set SLIM_JEV_GATEWAY_OFF=1 to try them anyway. No fallback was applied.",
            );
            Err(ProviderError::InvalidResponse { message })
        },
    }
}

/// The way to switch reasoning off for a model at an endpoint, or why there is
/// none.
pub fn resolve_reasoning_off_for(
    kind: ProviderKind,
    endpoint: &str,
    model: &str,
    policy: &OffPolicy,
) -> (r: Result<ReasoningOff, ProviderError>)
    ensures
        is_outcome(r, resolved_off(kind, host_of(endpoint@), model@, policy@)),
{
    match url::parse(endpoint) {
        Ok(parts) => {
            let host = match &parts.host {
                Some(h) => Some(h.as_str()),
                None => None,
            };
            resolve_reasoning_off_at(kind, host, model, policy)
        },
        Err(_) => resolve_reasoning_off_at(kind, None, model, policy),
    }
}

/// Whether a route can run without reasoning, and how. What runs a request and
/// what offers a model ask the same question.
pub fn reasoning_off_support(
    kind: ProviderKind,
    endpoint: &str,
    model: &str,
    policy: &OffPolicy,
) -> (r: Result<ReasoningOff, ProviderError>)
    ensures
        is_outcome(r, resolved_off(kind, host_of(endpoint@), model@, policy@)),
{
    resolve_reasoning_off_for(kind, endpoint, model, policy)
}

/// Believing the gateways takes no route away, and adds those alone on which a
/// gateway serves a model whose vendor documents the `thinking` field.
pub proof fn law_opt_in_adds_gateways_alone(
    kind: ProviderKind,
    host: Option<Seq<char>>,
    model: Seq<char>,
    policy: PolicyView,
)
    ensures
        ({
            let strict = resolved_off(kind, host, model, policy.with_gateways(false));
            let loose = resolved_off(kind, host, model, policy.with_gateways(true));
            &&& strict is Ok ==> loose == strict
            &&& strict is Err && loose is Ok ==> known_gateway(host) && thinking_toggle(model)
                && loose == Ok::<ReasoningOff, Seq<char>>(ReasoningOff::ThinkingDisabled)
        }),
{
    assert(policy.with_gateways(false).toggles(model) == policy.toggles(model));
    assert(policy.with_gateways(true).toggles(model) == policy.toggles(model));
}

proof fn lemma_no_slash(s: Seq<char>)
    requires
        !s.contains('/'),
    ensures
        text::last_part(s, '/') == s,
    decreases s.len(),
{
    if s.len() > 0 {
        assert(s[s.len() - 1] != '/') by {
            assert(s.contains(s[s.len() - 1]));
        }
        assert(!s.drop_last().contains('/')) by {
            if s.drop_last().contains('/') {
                let i = choose|i: int|
                    0 <= i < s.drop_last().len() && s.drop_last()[i] == '/';
                assert(s[i] == '/');
            }
        }
        lemma_no_slash(s.drop_last());
        assert(s.drop_last().push(s.last()) =~= s);
    } else {
        assert(text::last_part(s, '/') =~= s);
    }
}

/// How the names of models that always think begin, and what tells them from the
/// others.
proof fn lemma_always_thinking_names(model: Seq<char>)
    requires
        always_thinks(model),
    ensures
        ({
            let name = text::lower(model_name(model));
            &&& name.len() > 6
            &&& name[0] == 'g' ==> name.len() >= 7 && name[1] == 'l' && name[6] == '3'
            &&& name[0] == 'k' ==> (name[6] == '3' && name.len() == 7) || (name.len() > 9
                && name[8] == '7')
            &&& name[0] == 'g' || name[0] == 'k' || name[0] == 'm'
        }),
{
    reveal_strlit("glm-5.3");
    reveal_strlit("glm-5.3-flash");
    reveal_strlit("kimi-k3");
    reveal_strlit("kimi-k2.7-code");
    reveal_strlit("kimi-k2.7-code-highspeed");
    reveal_strlit("minimax-m2");
    reveal_strlit("minimax-m2.5");
    reveal_strlit("minimax-m2.7");
    let name = text::lower(model_name(model));
    if named(model, "glm-5.3"@) {
        assert(name.len() == 7 && name[6] == '3' && name[0] == 'g');
    } else if named(model, "glm-5.3-flash"@) {
        assert(name.len() == 13 && name[6] == '3' && name[0] == 'g');
    } else if named(model, "kimi-k3"@) {
        assert(name.len() == 7 && name[6] == '3' && name[0] == 'k');
    } else if named(model, "kimi-k2.7-code"@) {
        assert(name.len() == 14 && name[8] == '7' && name[0] == 'k');
    } else if named(model, "kimi-k2.7-code-highspeed"@) {
        assert(name.len() == 24 && name[8] == '7' && name[0] == 'k');
    } else if named(model, "minimax-m2"@) {
        assert(name.len() == 10 && name[0] == 'm');
    } else if named(model, "minimax-m2.5"@) {
        assert(name.len() == 12 && name[0] == 'm');
    } else {
        assert(name.len() == 12 && name[0] == 'm');
    }
}

/// Models of OpenAI have no `thinking` field.
pub proof fn lemma_gpt_is_no_toggle(model: Seq<char>)
    requires
        gpt_family(model) || model == "gpt-5.5"@,
    ensures
        !thinking_toggle(model),
{
    reveal_strlit("gpt-5.6-sol");
    reveal_strlit("gpt-5.6-terra");
    reveal_strlit("gpt-5.6-luna");
    reveal_strlit("gpt-5.5");
    reveal_strlit("deepseek-flash");
    reveal_strlit("deepseek-v4");
    reveal_strlit("glm-5");
    reveal_strlit("glm-5.1");
    reveal_strlit("glm-5.2");
    reveal_strlit("glm-5.2-fast");
    reveal_strlit("kimi-k2.5");
    reveal_strlit("kimi-k2.6");
    lemma_no_slash(model);
    let name = text::lower(model_name(model));
    assert(name[0] == 'g' && name[1] == 'p');
    assert(!deepseek_model(model)) by {
        if named(model, "deepseek-flash"@) {
            assert(name[0] == 'd');
        } else if text::starts_with(name, "deepseek-v4"@) {
            assert(name.subrange(0, 11)[0] == 'd');
        }
    }
    assert(!glm_toggle(model)) by {
        if named(model, "glm-5"@) {
            assert(name[1] == 'l');
        } else if named(model, "glm-5.1"@) {
            assert(name[1] == 'l');
        } else if named(model, "glm-5.2"@) {
            assert(name[1] == 'l');
        } else if named(model, "glm-5.2-fast"@) {
            assert(name[1] == 'l');
        }
    }
    assert(!kimi_toggle(model)) by {
        if named(model, "kimi-k2.5"@) {
            assert(name[0] == 'k');
        } else if named(model, "kimi-k2.6"@) {
            assert(name[0] == 'k');
        }
    }
}

/// A model that always thinks is never taken for one whose reasoning can be
/// switched off, whatever the host. On the wire of Anthropic the list of
/// its own models decides.
pub proof fn law_always_thinking_models_are_refused(
    kind: ProviderKind,
    host: Option<Seq<char>>,
    model: Seq<char>,
    policy: PolicyView,
)
    requires
        always_thinks(model),
        kind != ProviderKind::Anthropic || !policy.toggles(model),
    ensures
        resolved_off(kind, host, model, policy) == Err::<
            ReasoningOff,
            Seq<char>,
        >(always_thinking_words()),
{
    lemma_always_thinking_names(model);
    reveal_strlit("deepseek-flash");
    reveal_strlit("deepseek-v4");
    reveal_strlit("glm-5");
    reveal_strlit("glm-5.1");
    reveal_strlit("glm-5.2");
    reveal_strlit("glm-5.2-fast");
    reveal_strlit("kimi-k2.5");
    reveal_strlit("kimi-k2.6");
    reveal_strlit("gpt-5.6-sol");
    reveal_strlit("gpt-5.6-terra");
    reveal_strlit("gpt-5.6-luna");
    reveal_strlit("gpt-5.5");
    let name = text::lower(model_name(model));
    assert(!deepseek_model(model)) by {
        if named(model, "deepseek-flash"@) {
            assert(name[0] == 'd');
        } else if text::starts_with(name, "deepseek-v4"@) {
            assert(name.subrange(0, 11)[0] == 'd');
        }
    }
    assert(!glm_toggle(model)) by {
        if named(model, "glm-5"@) {
            assert(name.len() == 5);
        } else if named(model, "glm-5.1"@) {
            assert(name[6] == '1' && name[0] == 'g');
        } else if named(model, "glm-5.2"@) {
            assert(name[6] == '2' && name[0] == 'g');
        } else if named(model, "glm-5.2-fast"@) {
            assert(name[6] == '2' && name[0] == 'g');
        }
    }
    assert(!kimi_toggle(model)) by {
        if named(model, "kimi-k2.5"@) {
            assert(name[6] == '2' && name[0] == 'k' && name.len() == 9);
        } else if named(model, "kimi-k2.6"@) {
            assert(name[6] == '2' && name[0] == 'k' && name.len() == 9);
        }
    }
    assert(!gpt_family(model) && model != "gpt-5.5"@) by {
        if gpt_family(model) || model == "gpt-5.5"@ {
            lemma_no_slash(model);
            assert(name[1] == 'p' && name[0] == 'g');
        }
    }
}

/// What is said of an answer that reasons where it must not.
pub open spec fn violation_words() -> Seq<char> {
    "Native reasoning OFF was violated by the provider; response rejected before tool execution. No fallback was applied."@
}

pub fn reasoning_disabled_violation() -> (r: ProviderError)
    ensures
        r@ == (ErrorView::InvalidResponse { message: violation_words() }),
{
    ProviderError::invalid(
        "Native reasoning OFF was violated by the provider; response rejected before tool execution. No fallback was applied.",
    )
}

/// Whether an event shows that the model reasoned.
pub open spec fn shows_reasoning(event: StreamView) -> bool {
    match event {
        StreamView::ReasoningStarted => true,
        StreamView::ResponsesReasoning(_) => true,
        StreamView::ReasoningDelta(s) => s.len() > 0,
        StreamView::ChatReasoning(state) => state.content.len() > 0,
        StreamView::UsageBreakdown { usage } => usage.reasoning_tokens > 0,
        _ => false,
    }
}

pub fn event_contains_reasoning(event: &ProviderEvent) -> (r: bool)
    ensures
        r == shows_reasoning(event@),
{
    match event {
        ProviderEvent::ReasoningStarted => true,
        ProviderEvent::ResponsesReasoning(_) => true,
        ProviderEvent::ReasoningDelta(s) => !s.as_str().is_empty(),
        ProviderEvent::ChatReasoning(state) => !state.content.as_str().is_empty(),
        ProviderEvent::UsageBreakdown { usage } => usage.reasoning_tokens > 0,
        _ => false,
    }
}

/// The text that stands under a key of what stands under a key.
pub open spec fn text_under(tree: Tree, a: Seq<char>, b: Seq<char>) -> Option<Seq<char>> {
    match json::under(tree, a, b) {
        Some(inner) => inner.text(),
        None => None,
    }
}

/// Whether the body of a request says that there is to be no reasoning, in the
/// way its route documents.
pub open spec fn says_off(tree: Tree, kind: ProviderKind, off: ReasoningOff) -> bool {
    match off {
        ReasoningOff::EffortNone => {
            &&& kind == ProviderKind::OpenAiCompatible
            &&& tree.text_at("reasoning_effort"@) == Some("none"@)
            &&& json::under(tree, "thinking"@, "type"@) is None
        },
        ReasoningOff::ThinkingDisabled => {
            &&& text_under(tree, "thinking"@, "type"@) == Some("disabled"@)
            &&& tree.get("reasoning_effort"@) is None
            &&& kind != ProviderKind::Anthropic || tree.get("output_config"@) is None
        },
        ReasoningOff::ResponsesEffortNone => {
            &&& kind == ProviderKind::OpenAiCodex
            &&& text_under(tree, "reasoning"@, "effort"@) == Some("none"@)
            &&& json::under(tree, "reasoning"@, "summary"@) is None
            &&& tree.get("reasoning_effort"@) is None
        },
    }
}

fn text_is(value: Option<&Json>, expected: &str) -> (r: bool)
    ensures
        r == (value matches Some(j) && j@.text() == Some(expected@)),
{
    match value {
        Some(json) => match json.as_str() {
            Some(s) => text::same(s, expected),
            None => false,
        },
        None => false,
    }
}

/// Whether a body that was read says that there is to be no reasoning.
pub fn body_says_off(value: &Json, kind: ProviderKind, off: ReasoningOff) -> (r: bool)
    ensures
        r == says_off(value@, kind, off),
{
    match off {
        ReasoningOff::EffortNone => {
            kind == ProviderKind::OpenAiCompatible && text_is(value.get("reasoning_effort"), "none")
                && value.under("thinking", "type").is_none()
        },
        ReasoningOff::ThinkingDisabled => {
            text_is(value.under("thinking", "type"), "disabled") && value.get(
                "reasoning_effort",
            ).is_none() && (kind != ProviderKind::Anthropic || value.get("output_config").is_none())
        },
        ReasoningOff::ResponsesEffortNone => {
            kind == ProviderKind::OpenAiCodex && text_is(value.under("reasoning", "effort"), "none")
                && value.under("reasoning", "summary").is_none() && value.get(
                "reasoning_effort",
            ).is_none()
        },
    }
}

/// Whether the bytes of a request say that there is to be no reasoning.
pub open spec fn bytes_say_off(bytes: Seq<u8>, kind: ProviderKind, off: ReasoningOff) -> bool {
    json::parsed_bytes(bytes) matches Ok(tree) && says_off(tree, kind, off)
}

/// Whether the text of a request says that there is to be no reasoning.
pub open spec fn text_says_off(s: Seq<char>, kind: ProviderKind, off: ReasoningOff) -> bool {
    json::parsed(s) matches Ok(tree) && says_off(tree, kind, off)
}

/// Lets a request pass that says that there is to be no reasoning.
pub fn validate_reasoning_disabled_payload(body: &[u8], kind: ProviderKind, off: ReasoningOff) -> (r:
    Result<(), ProviderError>)
    ensures
        r is Ok <==> bytes_say_off(body@, kind, off),
        forall|s: Seq<char>| body@ == #[trigger] encode_utf8(s) ==> (r is Ok <==> text_says_off(
            s,
            kind,
            off,
        )),
        r matches Err(error) ==> error@ == (ErrorView::InvalidResponse {
            message: violation_words(),
        }),
{
    proof {
        assert forall|s: Seq<char>| body@ == #[trigger] encode_utf8(s) implies valid_utf8(body@)
            && decode_utf8(body@) == s by {
            encode_utf8_valid_utf8(s);
            encode_utf8_decode_utf8(s);
        }
    }
    let valid = match json::parse_bytes(body) {
        Ok(value) => body_says_off(&value, kind, off),
        Err(_) => false,
    };
    if valid {
        Ok(())
    } else {
        Err(reasoning_disabled_violation())
    }
}

} // verus!
