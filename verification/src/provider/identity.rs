//! Keys that requests are grouped and found again by.
use vstd::prelude::*;
use vstd::string::*;
use vstd::utf8::encode_utf8;

use crate::hash;
use crate::json;
use crate::json::{Json, Tree};
use crate::provider::accounting;
use crate::provider::accounting::ProviderRequestFingerprints;
use crate::provider::canonical;
use crate::provider::content;
use crate::provider::endpoint;
use crate::provider::endpoint::HttpRequest;
use crate::provider::message;
use crate::provider::message::{MessageView, ProviderMessage};
use crate::provider::types::ProviderKind;
use crate::text;
use crate::url;

verus! {

/// What a kind of provider is called.
pub open spec fn kind_name(kind: ProviderKind) -> Seq<char> {
    match kind {
        ProviderKind::OpenAiCompatible => "openai-compatible"@,
        ProviderKind::OpenAiCodex => "openai-codex"@,
        ProviderKind::Anthropic => "anthropic"@,
        ProviderKind::OpenCodeGo => "opencode-go"@,
        ProviderKind::OpenCodeZen => "opencode-zen"@,
        ProviderKind::ClinePass => "cline-pass"@,
        ProviderKind::CommandCode => "command-code"@,
        ProviderKind::Xai => "xai"@,
    }
}

pub fn provider_kind_name(kind: ProviderKind) -> (r: &'static str)
    ensures
        r@ == kind_name(kind),
{
    match kind {
        ProviderKind::OpenAiCompatible => "openai-compatible",
        ProviderKind::OpenAiCodex => "openai-codex",
        ProviderKind::Anthropic => "anthropic",
        ProviderKind::OpenCodeGo => "opencode-go",
        ProviderKind::OpenCodeZen => "opencode-zen",
        ProviderKind::ClinePass => "cline-pass",
        ProviderKind::CommandCode => "command-code",
        ProviderKind::Xai => "xai",
    }
}

/// A 64-bit number as sixteen hexadecimal digits.
pub open spec fn hex16(n: u64) -> Seq<char> {
    text::hex(text::big_endian(n))
}

/// A 128-bit number as thirty-two hexadecimal digits.
pub open spec fn hex32(n: u128) -> Seq<char> {
    hex16((n / 0x1_0000_0000_0000_0000) as u64) + hex16((n % 0x1_0000_0000_0000_0000) as u64)
}

fn hex32_of(n: u128) -> (r: String)
    ensures
        r@ == hex32(n),
{
    let high: u64 = (n / 0x1_0000_0000_0000_0000) as u64;
    let low: u64 = (n % 0x1_0000_0000_0000_0000) as u64;
    let mut r = text::hex16_of(high);
    r.append(text::hex16_of(low).as_str());
    r
}

/// Digits without the zeros in front, but not fewer than `floor`.
pub open spec fn without_zeros(digits: Seq<char>, floor: nat) -> Seq<char>
    decreases digits.len(),
{
    if digits.len() > floor && digits[0] == '0' {
        without_zeros(digits.skip(1), floor)
    } else {
        digits
    }
}

/// A 128-bit number as hexadecimal digits, sixteen at least.
fn hex16_wide_of(n: u128) -> (r: String)
    ensures
        r@ == without_zeros(hex32(n), 16),
{
    let digits = hex32_of(n);
    let chars = text::chars_of(digits.as_str());
    let mut i: usize = 0;
    assert(chars@.skip(0) =~= chars@);
    while chars.len() - i > 16 && chars[i] == '0'
        invariant
            i <= chars@.len(),
            without_zeros(chars@, 16) == without_zeros(chars@.skip(i as int), 16),
        decreases chars@.len() - i,
    {
        assert(chars@.skip(i as int).skip(1) =~= chars@.skip(i + 1));
        i = i + 1;
    }
    assert(chars@.skip(i as int) =~= chars@.subrange(i as int, chars@.len() as int));
    text::string_of(&chars, i, chars.len())
}

/// The key by which requests with the same beginning are routed together.
pub open spec fn routing_key(
    kind: ProviderKind,
    wire_kind: ProviderKind,
    model: Seq<char>,
    endpoint: Seq<char>,
    headers: Seq<(Seq<char>, Seq<char>)>,
    scope_id: u128,
    prefixes: ProviderRequestFingerprints,
) -> Seq<char> {
    "slim-prompt-v2:"@ + kind_name(kind) + ":"@ + kind_name(wire_kind) + ":"@ + model + ":"@
        + hex16(canonical::text_hash(endpoint::endpoint_text(endpoint))) + ":"@ + hex16(
        canonical::text_hash(endpoint::headers_text(headers)),
    ) + ":"@ + hex32(scope_id) + ":"@ + hex16(prefixes.system) + ":"@ + hex16(prefixes.tools)
}

pub fn prompt_cache_routing_key(
    kind: ProviderKind,
    wire_kind: ProviderKind,
    model: &str,
    endpoint: &str,
    headers: &Vec<(String, String)>,
    response_cache_scope_id: u128,
    prefixes: ProviderRequestFingerprints,
) -> (r: String)
    ensures
        r@ == routing_key(
            kind,
            wire_kind,
            model@,
            endpoint@,
            url::pair_views(headers@),
            response_cache_scope_id,
            prefixes,
        ),
{
    let mut r = "slim-prompt-v2:".to_owned();
    r.append(provider_kind_name(kind));
    r.append(":");
    r.append(provider_kind_name(wire_kind));
    r.append(":");
    r.append(model);
    r.append(":");
    r.append(text::hex16_of(endpoint::endpoint_identity(endpoint)).as_str());
    r.append(":");
    r.append(text::hex16_of(endpoint::semantic_headers_identity(headers)).as_str());
    r.append(":");
    r.append(hex32_of(response_cache_scope_id).as_str());
    r.append(":");
    r.append(text::hex16_of(prefixes.system).as_str());
    r.append(":");
    r.append(text::hex16_of(prefixes.tools).as_str());
    r
}

/// Credentials in headers do not change the route.
pub proof fn law_routing_ignores_credentials(
    kind: ProviderKind,
    wire_kind: ProviderKind,
    model: Seq<char>,
    endpoint: Seq<char>,
    headers: Seq<(Seq<char>, Seq<char>)>,
    scope_id: u128,
    prefixes: ProviderRequestFingerprints,
)
    ensures
        routing_key(kind, wire_kind, model, endpoint, headers, scope_id, prefixes) == routing_key(
            kind,
            wire_kind,
            model,
            endpoint,
            endpoint::shown_headers(headers),
            scope_id,
            prefixes,
        ),
{
    endpoint::law_headers_are_told_apart_without_credentials(headers);
}

/// What a provider's own cache key stands for: the kind, the model, the versions
/// of the prompt and of its policy, the rules and the tools.
pub open spec fn native_identity(
    wire_kind: ProviderKind,
    model: Seq<char>,
    prefixes: ProviderRequestFingerprints,
) -> Seq<char> {
    canonical::frame(kind_name(wire_kind)) + canonical::frame(model) + canonical::frame(
        "1.8-channel-facts"@,
    ) + canonical::frame("1"@) + canonical::frame(hex16(prefixes.system)) + canonical::frame(
        hex16(prefixes.tools),
    )
}

/// A provider's own cache key.
pub open spec fn native_key(
    wire_kind: ProviderKind,
    model: Seq<char>,
    prefixes: ProviderRequestFingerprints,
) -> Seq<char> {
    "slim-pc-v1-"@ + text::hex(
        hash::sha256_digest(encode_utf8(native_identity(wire_kind, model, prefixes))).take(16),
    )
}

/// The key of a digest.
pub fn native_key_of_digest(digest: &Vec<u8>) -> (r: String)
    requires
        digest@.len() >= 16,
    ensures
        r@ == "slim-pc-v1-"@ + text::hex(digest@.take(16)),
{
    let mut bytes: Vec<u8> = Vec::new();
    let mut i: usize = 0;
    while i < 16
        invariant
            i <= 16 <= digest@.len(),
            bytes@ == digest@.take(i as int),
        decreases 16 - i,
    {
        bytes.push(digest[i]);
        assert(digest@.take(i + 1) =~= digest@.take(i as int).push(digest@[i as int]));
        i = i + 1;
    }
    let mut r = "slim-pc-v1-".to_owned();
    r.append(text::hex_of(&bytes).as_str());
    r
}

pub fn provider_native_prompt_cache_key_for_prefixes(
    wire_kind: ProviderKind,
    model: &str,
    prefixes: ProviderRequestFingerprints,
) -> (r: String)
    ensures
        r@ == native_key(wire_kind, model@, prefixes),
{
    let mut identity = String::new();
    canonical::canonical_push(&mut identity, provider_kind_name(wire_kind));
    canonical::canonical_push(&mut identity, model);
    canonical::canonical_push(&mut identity, "1.8-channel-facts");
    canonical::canonical_push(&mut identity, "1");
    canonical::canonical_push(&mut identity, text::hex16_of(prefixes.system).as_str());
    canonical::canonical_push(&mut identity, text::hex16_of(prefixes.tools).as_str());
    assert(identity@ =~= native_identity(wire_kind, model@, prefixes));
    let bytes = text::bytes_of(identity.as_str());
    let digest = hash::sha256(&bytes);
    native_key_of_digest(&digest)
}

/// A provider's own cache key for the beginning of a request.
pub fn provider_native_prompt_cache_key(wire_kind: ProviderKind, model: &str, body: &Json) -> (r:
    String)
    ensures
        r@ == native_key(wire_kind, model@, accounting::prefix_fingerprints(body@)),
{
    provider_native_prompt_cache_key_for_prefixes(
        wire_kind,
        model,
        accounting::provider_prefix_fingerprints(body),
    )
}

/// A request's growing history leaves the provider's own key as it is.
pub proof fn law_native_key_ignores_history(
    wire_kind: ProviderKind,
    model: Seq<char>,
    prefixes: ProviderRequestFingerprints,
    history: u64,
)
    ensures
        native_key(wire_kind, model, prefixes) == native_key(
            wire_kind,
            model,
            (ProviderRequestFingerprints { history, ..prefixes }),
        ),
{
}

/// The key under which the answer to a request is kept.
pub open spec fn response_key(
    kind: ProviderKind,
    model: Seq<char>,
    scope_id: u128,
    endpoint: Seq<char>,
    headers: Seq<(Seq<char>, Seq<char>)>,
    body: Seq<u8>,
) -> Seq<char> {
    "slim-cache-v4:"@ + kind_name(kind) + ":"@ + model + ":"@ + hex16(
        canonical::text_hash(endpoint::endpoint_text(endpoint)),
    ) + ":"@ + hex16(canonical::text_hash(endpoint::headers_text(headers))) + ":"@ + hex32(scope_id)
        + ":"@ + hex16(hash::fnv(body))
}

/// Credentials in headers do not show in the key of an answer: where they matter,
/// the number of their scope stands for them.
pub proof fn law_response_key_ignores_credentials(
    kind: ProviderKind,
    model: Seq<char>,
    scope_id: u128,
    endpoint: Seq<char>,
    headers: Seq<(Seq<char>, Seq<char>)>,
    body: Seq<u8>,
)
    ensures
        response_key(kind, model, scope_id, endpoint, headers, body) == response_key(
            kind,
            model,
            scope_id,
            endpoint,
            endpoint::shown_headers(headers),
            body,
        ),
{
    endpoint::law_headers_are_told_apart_without_credentials(headers);
}

pub fn prepared_response_cache_key(
    kind: ProviderKind,
    model: &str,
    credential_scope: u128,
    endpoint: &str,
    headers: &Vec<(String, String)>,
    body: &Vec<u8>,
) -> (r: String)
    ensures
        r@ == response_key(
            kind,
            model@,
            credential_scope,
            endpoint@,
            url::pair_views(headers@),
            body@,
        ),
{
    let mut r = "slim-cache-v4:".to_owned();
    r.append(provider_kind_name(kind));
    r.append(":");
    r.append(model);
    r.append(":");
    r.append(text::hex16_of(endpoint::endpoint_identity(endpoint)).as_str());
    r.append(":");
    r.append(text::hex16_of(endpoint::semantic_headers_identity(headers)).as_str());
    r.append(":");
    r.append(hex32_of(credential_scope).as_str());
    r.append(":");
    r.append(text::hex16_of(hash::fnv1a64(body.as_slice())).as_str());
    r
}

/// What sets the keys of one adapter apart from those of others: what an empty
/// request of it looks like.
pub open spec fn namespace(
    kind: ProviderKind,
    scope_id: u128,
    request: endpoint::RequestView,
) -> Seq<char> {
    kind_name(kind) + ":"@ + hex16(canonical::text_hash(endpoint::endpoint_text(request.url)))
        + ":"@ + hex16(canonical::text_hash(endpoint::headers_text(request.headers))) + ":"@
        + without_zeros(hex32(scope_id), 16) + ":"@ + hex16(canonical::text_hash(request.body))
}

pub fn cache_namespace(kind: ProviderKind, credential_scope: u128, request: &HttpRequest) -> (r:
    String)
    ensures
        r@ == namespace(kind, credential_scope, request@),
{
    let mut r = provider_kind_name(kind).to_owned();
    r.append(":");
    r.append(text::hex16_of(endpoint::endpoint_identity(request.url.as_str())).as_str());
    r.append(":");
    r.append(text::hex16_of(endpoint::semantic_headers_identity(&request.headers)).as_str());
    r.append(":");
    r.append(hex16_wide_of(credential_scope).as_str());
    r.append(":");
    r.append(text::hex16_of(canonical::hash_of(request.body.as_str())).as_str());
    r
}

/// Values in canonical form, one behind the other.
pub open spec fn canonical_tools(tools: Seq<Tree>) -> Seq<char>
    decreases tools.len(),
{
    if tools.len() == 0 {
        Seq::empty()
    } else {
        canonical_tools(tools.drop_last()) + canonical::canonical(tools.last())
    }
}

/// What a key made of parts stands for.
pub open spec fn parts_identity(
    namespace: Seq<char>,
    model: Seq<char>,
    messages: Seq<MessageView>,
    tools: Seq<Tree>,
) -> Seq<char> {
    canonical::frame(namespace) + canonical::frame(model) + canonical::frame(
        content::canonical_history(messages),
    ) + canonical::frame(text::decimal(tools.len())) + canonical_tools(tools)
}

/// The key of messages and tools in a namespace.
pub open spec fn parts_key(
    namespace: Seq<char>,
    model: Seq<char>,
    messages: Seq<MessageView>,
    tools: Seq<Tree>,
) -> Seq<char> {
    "slim-cache-v2:"@ + namespace + ":"@ + model + ":"@ + hex16(
        canonical::text_hash(parts_identity(namespace, model, messages, tools)),
    )
}

pub fn cache_key_for_parts(
    namespace: &str,
    model: &str,
    messages: &Vec<ProviderMessage>,
    tools: &Vec<Json>,
) -> (r: String)
    ensures
        r@ == parts_key(namespace@, model@, message::views(messages@), json::trees(tools@)),
{
    let ghost all = json::trees(tools@);
    let mut out = String::new();
    canonical::canonical_push(&mut out, namespace);
    canonical::canonical_push(&mut out, model);
    let history = content::canonical_messages(messages);
    canonical::canonical_push(&mut out, history.as_str());
    canonical::canonical_push(&mut out, text::decimal_of(tools.len() as u64).as_str());
    let ghost start = canonical::frame(namespace@) + canonical::frame(model@) + canonical::frame(
        history@,
    ) + canonical::frame(text::decimal(tools@.len()));
    assert(out@ =~= start);
    let mut i: usize = 0;
    assert(out@ =~= start + canonical_tools(all.take(0)));
    while i < tools.len()
        invariant
            i <= tools.len(),
            all == json::trees(tools@),
            out@ == start + canonical_tools(all.take(i as int)),
        decreases tools.len() - i,
    {
        canonical::canonical_json(&tools[i], &mut out);
        assert(all.take(i + 1).drop_last() =~= all.take(i as int));
        assert(all.take(i + 1).last() == tools@[i as int]@);
        assert(out@ =~= start + canonical_tools(all.take(i + 1)));
        i = i + 1;
    }
    assert(all.take(all.len() as int) =~= all);
    let mut r = "slim-cache-v2:".to_owned();
    r.append(namespace);
    r.append(":");
    r.append(model);
    r.append(":");
    r.append(text::hex16_of(canonical::hash_of(out.as_str())).as_str());
    r
}

} // verus!
