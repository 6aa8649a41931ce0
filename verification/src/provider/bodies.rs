//! What is changed in the body of a request: the provider's own cache key, the
//! authority and the limits of a compaction, and the limits of a last answer.
use vstd::prelude::*;
use vstd::string::*;

use crate::arith;
use crate::context::compact::COMPACTION_SYSTEM_PROMPT;
use crate::json;
use crate::json::{Json, Tree};
use crate::provider::accounting;
use crate::provider::accounting::ProviderRequestFingerprints;
use crate::provider::identity;
use crate::provider::types::{ErrorView, ProviderError, ProviderKind};
use crate::text;

verus! {

/// Most tokens of a compaction and of a last answer.
pub const COMPACTION_MAX_OUTPUT_TOKENS: u64 = 2_048;

/// What a key can be set in: a body that is null counts as an empty object.
pub open spec fn settable(tree: Tree) -> Tree {
    if tree is Null {
        json::empty_object()
    } else {
        tree
    }
}

pub fn make_settable(body: Json) -> (r: Json)
    ensures
        r@ == settable(body@),
{
    broadcast use json::lemma_json_view;

    match body {
        Json::Null => Json::object(),
        other => other,
    }
}

/// A body with the provider's own cache key.
pub open spec fn with_native_key(tree: Tree, wire_kind: ProviderKind, model: Seq<char>) -> Tree {
    settable(tree).with(
        "prompt_cache_key"@,
        Tree::Text(identity::native_key(wire_kind, model, accounting::prefix_fingerprints(tree))),
    )
}

/// Puts the provider's own cache key into a body, and gives what it was made of.
pub fn materialize_native_prompt_cache_key(body: Json, wire_kind: ProviderKind, model: &str) -> (r:
    (Json, ProviderRequestFingerprints))
    requires
        body@ is Object || body@ is Null,
    ensures
        r.0@ == with_native_key(body@, wire_kind, model@),
        r.1 == accounting::prefix_fingerprints(body@),
{
    let prefixes = accounting::provider_prefix_fingerprints(&body);
    let key = identity::provider_native_prompt_cache_key_for_prefixes(wire_kind, model, prefixes);
    (make_settable(body).with("prompt_cache_key", Json::string(key.as_str())), prefixes)
}

/// The messages without those of the system.
pub open spec fn without_system(items: Seq<Tree>) -> Seq<Tree>
    decreases items.len(),
{
    if items.len() == 0 {
        Seq::empty()
    } else {
        let front = without_system(items.drop_last());
        if items.last().text_at("role"@) == Some("system"@) {
            front
        } else {
            front.push(items.last())
        }
    }
}

/// The message that carries the rules of a compaction.
pub open spec fn authority_message() -> Tree {
    json::empty_object().with("role"@, Tree::Text("system"@)).with(
        "content"@,
        Tree::Text(COMPACTION_SYSTEM_PROMPT@),
    )
}

/// What is said of a body that is no object.
pub open spec fn no_object_words() -> Seq<char> {
    "provider compaction request body must be an object"@
}

/// What is said of a body that has no place for rules.
pub open spec fn no_authority_words() -> Seq<char> {
    "provider compaction request has no supported system authority field"@
}

/// A body with the rules of a compaction in place of its own.
pub open spec fn with_authority(tree: Tree, anthropic_wire: bool) -> Option<Tree> {
    if anthropic_wire {
        Some(tree.with("system"@, Tree::Text(COMPACTION_SYSTEM_PROMPT@)))
    } else if tree.get("instructions"@) is Some || tree.get("input"@) is Some {
        Some(tree.with("instructions"@, Tree::Text(COMPACTION_SYSTEM_PROMPT@)))
    } else {
        match tree.items_at("messages"@) {
            Some(items) => Some(
                tree.with(
                    "messages"@,
                    Tree::Array(seq![authority_message()] + without_system(items)),
                ),
            ),
            None => None,
        }
    }
}

/// A body whose limit under a key is no more than that of a compaction.
pub open spec fn limited(tree: Tree, key: Seq<char>) -> Tree {
    match tree.unsigned_at(key) {
        Some(n) => if n > COMPACTION_MAX_OUTPUT_TOKENS {
            tree.with(key, Tree::Number(text::decimal(COMPACTION_MAX_OUTPUT_TOKENS as nat)))
        } else {
            tree
        },
        None => tree,
    }
}

pub open spec fn all_limited(tree: Tree) -> Tree {
    limited(
        limited(limited(tree, "max_tokens"@), "max_output_tokens"@),
        "max_completion_tokens"@,
    )
}

/// A body made fit for a compaction: with its rules, without keys and marks of a
/// cache that could not be used, and within its limits.
pub open spec fn hardened(tree: Tree, anthropic_wire: bool) -> Result<Tree, Seq<char>> {
    if !(tree is Object) {
        Err(no_object_words())
    } else {
        match with_authority(tree, anthropic_wire) {
            Some(body) => Ok(
                all_limited(body.without("prompt_cache_key"@).without("cache_control"@)),
            ),
            None => Err(no_authority_words()),
        }
    }
}

fn drop_system(items: &Vec<Json>) -> (out: Vec<Json>)
    ensures
        json::trees(out@) == seq![authority_message()] + without_system(json::trees(items@)),
{
    let ghost all = json::trees(items@);
    let first = Json::object().with("role", Json::string("system")).with(
        "content",
        Json::string(COMPACTION_SYSTEM_PROMPT),
    );
    let mut out: Vec<Json> = Vec::new();
    out.push(first);
    let mut i: usize = 0;
    assert(json::trees(out@) =~= seq![authority_message()] + without_system(all.take(0)));
    while i < items.len()
        invariant
            i <= items.len(),
            all == json::trees(items@),
            json::trees(out@) == seq![authority_message()] + without_system(all.take(i as int)),
        decreases items.len() - i,
    {
        assert(all.take(i + 1).drop_last() =~= all.take(i as int));
        assert(all.take(i + 1).last() == items@[i as int]@);
        let is_system = match items[i].str_at("role") {
            Some(role) => text::same(role, "system"),
            None => false,
        };
        if !is_system {
            let ghost done = out@;
            out.push(items[i].copy());
            assert(json::trees(out@) =~= json::trees(done).push(items@[i as int]@));
            assert(json::trees(out@) =~= seq![authority_message()] + without_system(
                all.take(i + 1),
            ));
        }
        i = i + 1;
    }
    assert(all.take(all.len() as int) =~= all);
    out
}

/// Puts the rules of a compaction in place of those of a body.
pub fn replace_compaction_authority(body: Json, anthropic_wire: bool) -> (r: Result<
    Json,
    ProviderError,
>)
    ensures
        (match (r, with_authority(body@, anthropic_wire)) {
            (Ok(value), Some(tree)) => value@ == tree,
            (Err(error), None) => error@ == (ErrorView::InvalidResponse {
                message: no_authority_words(),
            }),
            _ => false,
        }),
{
    broadcast use json::lemma_json_view;

    if anthropic_wire {
        return Ok(body.with("system", Json::string(COMPACTION_SYSTEM_PROMPT)));
    }
    if body.get("instructions").is_some() || body.get("input").is_some() {
        return Ok(body.with("instructions", Json::string(COMPACTION_SYSTEM_PROMPT)));
    }
    let messages = match body.array_at("messages") {
        Some(items) => Some(drop_system(items)),
        None => None,
    };
    match messages {
        Some(items) => Ok(body.with("messages", Json::Array(items))),
        None => Err(
            ProviderError::invalid(
                "provider compaction request has no supported system authority field",
            ),
        ),
    }
}

fn limit(body: Json, key: &str) -> (r: Json)
    ensures
        r@ == limited(body@, key@),
{
    match body.u64_at(key) {
        Some(n) => if n > COMPACTION_MAX_OUTPUT_TOKENS {
            body.with(key, Json::number(COMPACTION_MAX_OUTPUT_TOKENS))
        } else {
            body
        },
        None => body,
    }
}

/// Makes a body fit for a compaction.
pub fn harden_compaction_body(body: Json, anthropic_wire: bool) -> (r: Result<Json, ProviderError>)
    ensures
        (match (r, hardened(body@, anthropic_wire)) {
            (Ok(value), Ok(tree)) => value@ == tree,
            (Err(error), Err(words)) => error@ == (ErrorView::InvalidResponse { message: words }),
            _ => false,
        }),
{
    if !body.is_object() {
        return Err(ProviderError::invalid("provider compaction request body must be an object"));
    }
    match replace_compaction_authority(body, anthropic_wire) {
        Ok(body) => {
            let body = body.without("prompt_cache_key").without("cache_control");
            let body = limit(body, "max_tokens");
            let body = limit(body, "max_output_tokens");
            Ok(limit(body, "max_completion_tokens"))
        },
        Err(error) => Err(error),
    }
}

proof fn lemma_limited(tree: Tree, key: Seq<char>, other: Seq<char>)
    requires
        tree is Object,
    ensures
        limited(tree, key) is Object,
        limited(tree, key).unsigned_at(key) matches Some(n) ==> n <= COMPACTION_MAX_OUTPUT_TOKENS,
        other != key ==> limited(tree, key).get(other) == tree.get(other),
{
    json::lemma_decimal_value(COMPACTION_MAX_OUTPUT_TOKENS as nat);
    json::law_set_key_is_found(
        tree,
        key,
        Tree::Number(text::decimal(COMPACTION_MAX_OUTPUT_TOKENS as nat)),
        other,
    );
}

/// The keys under which a body limits the tokens of the answer.
pub open spec fn is_limit_key(key: Seq<char>) -> bool {
    key == "max_tokens"@ || key == "max_output_tokens"@ || key == "max_completion_tokens"@
}

proof fn lemma_limit_keys_differ()
    ensures
        "max_tokens"@ != "max_output_tokens"@,
        "max_tokens"@ != "max_completion_tokens"@,
        "max_output_tokens"@ != "max_completion_tokens"@,
{
    reveal_strlit("max_tokens");
    reveal_strlit("max_output_tokens");
    reveal_strlit("max_completion_tokens");
    assert("max_tokens"@.len() == 10);
    assert("max_output_tokens"@.len() == 17);
    assert("max_completion_tokens"@.len() == 21);
}

proof fn lemma_all_limited(tree: Tree, key: Seq<char>, other: Seq<char>)
    requires
        tree is Object,
        is_limit_key(key),
        !is_limit_key(other),
    ensures
        all_limited(tree) is Object,
        all_limited(tree).unsigned_at(key) matches Some(n) ==> n <= COMPACTION_MAX_OUTPUT_TOKENS,
        all_limited(tree).get(other) == tree.get(other),
{
    lemma_limit_keys_differ();
    let a = limited(tree, "max_tokens"@);
    let b = limited(a, "max_output_tokens"@);
    lemma_limited(tree, "max_tokens"@, other);
    lemma_limited(tree, "max_tokens"@, key);
    lemma_limited(a, "max_output_tokens"@, other);
    lemma_limited(a, "max_output_tokens"@, key);
    lemma_limited(b, "max_completion_tokens"@, other);
    lemma_limited(b, "max_completion_tokens"@, key);
}

/// A body made fit for a compaction asks for no more tokens than a compaction
/// may have, under whichever key.
pub proof fn law_hardened_body_is_limited(tree: Tree, anthropic_wire: bool, key: Seq<char>)
    requires
        is_limit_key(key),
    ensures
        hardened(tree, anthropic_wire) matches Ok(body) ==> (body.unsigned_at(key) matches Some(n)
            ==> n <= COMPACTION_MAX_OUTPUT_TOKENS),
{
    if hardened(tree, anthropic_wire) is Ok {
        lemma_authority_is_object(tree, anthropic_wire);
        let body = with_authority(tree, anthropic_wire)->0;
        json::law_removed_key_is_gone(body, "prompt_cache_key"@, key);
        let shorter = body.without("prompt_cache_key"@);
        json::law_removed_key_is_gone(shorter, "cache_control"@, key);
        reveal_strlit("");
        reveal_strlit("max_tokens");
        reveal_strlit("max_output_tokens");
        reveal_strlit("max_completion_tokens");
        lemma_all_limited(shorter.without("cache_control"@), key, ""@);
    }
}

proof fn lemma_authority_is_object(tree: Tree, anthropic_wire: bool)
    requires
        tree is Object,
    ensures
        with_authority(tree, anthropic_wire) matches Some(body) ==> body is Object,
{
}

/// A body made fit for a compaction carries neither the key nor the marks of a
/// cache.
pub proof fn law_hardened_body_leaves_the_cache(tree: Tree, anthropic_wire: bool)
    ensures
        hardened(tree, anthropic_wire) matches Ok(body) ==> body.get("prompt_cache_key"@) is None
            && body.get("cache_control"@) is None,
{
    if hardened(tree, anthropic_wire) is Ok {
        reveal_strlit("prompt_cache_key");
        reveal_strlit("cache_control");
        reveal_strlit("max_tokens");
        reveal_strlit("max_output_tokens");
        reveal_strlit("max_completion_tokens");
        assert("prompt_cache_key"@.len() == 16);
        assert("cache_control"@.len() == 13);
        let body = with_authority(tree, anthropic_wire)->0;
        json::law_removed_key_is_gone(body, "prompt_cache_key"@, "cache_control"@);
        let shorter = body.without("prompt_cache_key"@);
        json::law_removed_key_is_gone(shorter, "cache_control"@, "prompt_cache_key"@);
        let last = shorter.without("cache_control"@);
        lemma_all_limited(last, "max_tokens"@, "prompt_cache_key"@);
        lemma_all_limited(last, "max_tokens"@, "cache_control"@);
    }
}

proof fn lemma_none_of_the_system(items: Seq<Tree>, i: int)
    requires
        0 <= i < without_system(items).len(),
    ensures
        without_system(items)[i].text_at("role"@) != Some("system"@),
    decreases items.len(),
{
    if items.len() > 0 {
        let front = without_system(items.drop_last());
        if i < front.len() {
            lemma_none_of_the_system(items.drop_last(), i);
        }
    }
}

/// Among the messages of a body made fit for a compaction the rules of the
/// compaction stand first, and no message behind them is one of the system.
pub proof fn law_hardened_messages_have_one_authority(tree: Tree, items: Seq<Tree>, i: int)
    requires
        tree is Object,
        tree.get("instructions"@) is None,
        tree.get("input"@) is None,
        tree.get("messages"@) == Some(Tree::Array(items)),
    ensures
        ({
            let r = hardened(tree, false);
            &&& r is Ok
            &&& r->Ok_0.items_at("messages"@) is Some
            &&& r->Ok_0.items_at("messages"@)->0.len() > 0
            &&& r->Ok_0.items_at("messages"@)->0[0] == authority_message()
            &&& 0 < i < r->Ok_0.items_at("messages"@)->0.len() ==> r->Ok_0.items_at(
                "messages"@,
            )->0[i].text_at("role"@) != Some("system"@)
        }),
{
    reveal_strlit("messages");
    reveal_strlit("prompt_cache_key");
    reveal_strlit("cache_control");
    reveal_strlit("max_tokens");
    reveal_strlit("max_output_tokens");
    reveal_strlit("max_completion_tokens");
    assert("messages"@.len() == 8);
    assert("prompt_cache_key"@.len() == 16);
    assert("cache_control"@.len() == 13);
    let value = Tree::Array(seq![authority_message()] + without_system(items));
    let body = with_authority(tree, false)->0;
    json::law_set_key_is_found(tree, "messages"@, value, "input"@);
    json::law_removed_key_is_gone(body, "prompt_cache_key"@, "messages"@);
    let shorter = body.without("prompt_cache_key"@);
    json::law_removed_key_is_gone(shorter, "cache_control"@, "messages"@);
    lemma_all_limited(shorter.without("cache_control"@), "max_tokens"@, "messages"@);
    if 0 < i < 1 + without_system(items).len() {
        lemma_none_of_the_system(items, i - 1);
    }
}

/// A body whose efforts are low, where it has any.
pub open spec fn with_low_effort(tree: Tree) -> Tree {
    let first = if tree.get("reasoning_effort"@) is Some {
        tree.with("reasoning_effort"@, Tree::Text("low"@))
    } else {
        tree
    };
    match first.get("reasoning"@) {
        Some(reasoning) => if reasoning.get("effort"@) is Some {
            first.with("reasoning"@, reasoning.with("effort"@, Tree::Text("low"@)))
        } else {
            first
        },
        None => first,
    }
}

/// The limit of a last answer.
pub open spec fn shortened(tree: Tree, key: Seq<char>) -> Tree {
    match tree.unsigned_at(key) {
        Some(n) => tree.with(
            key,
            Tree::Number(
                text::decimal(
                    (if n < COMPACTION_MAX_OUTPUT_TOKENS {
                        n
                    } else {
                        COMPACTION_MAX_OUTPUT_TOKENS
                    }) as nat,
                ),
            ),
        ),
        None => tree,
    }
}

/// Whether the effort of a last answer is lowered: where the model knows a low one
/// and reasoning is not switched off.
pub fn lowers_effort(supports_low: bool, reasoning_disabled: bool) -> (r: bool)
    ensures
        r == (supports_low && !reasoning_disabled),
{
    supports_low && !reasoning_disabled
}

/// A body for the last answer of a session: with low effort where that is asked
/// for, and within the limits.
pub open spec fn finalized(tree: Tree, lower_effort: bool) -> Tree {
    let calm = if lower_effort {
        with_low_effort(tree)
    } else {
        tree
    };
    shortened(
        shortened(shortened(calm, "max_tokens"@), "max_output_tokens"@),
        "max_completion_tokens"@,
    )
}

fn lower(body: Json) -> (r: Json)
    ensures
        r@ == with_low_effort(body@),
{
    let first = if body.get("reasoning_effort").is_some() {
        body.with("reasoning_effort", Json::string("low"))
    } else {
        body
    };
    let calmed = match first.get("reasoning") {
        Some(reasoning) => if reasoning.get("effort").is_some() {
            Some(reasoning.copy().with("effort", Json::string("low")))
        } else {
            None
        },
        None => None,
    };
    match calmed {
        Some(reasoning) => first.with("reasoning", reasoning),
        None => first,
    }
}

fn shorten(body: Json, key: &str) -> (r: Json)
    ensures
        r@ == shortened(body@, key@),
{
    match body.u64_at(key) {
        Some(n) => {
            let m: u64 = if n < COMPACTION_MAX_OUTPUT_TOKENS {
                n
            } else {
                COMPACTION_MAX_OUTPUT_TOKENS
            };
            body.with(key, Json::number(m))
        },
        None => body,
    }
}

/// Makes a body fit for the last answer of a session.
pub fn finalize_body(body: Json, lower_effort: bool) -> (r: Json)
    ensures
        r@ == finalized(body@, lower_effort),
{
    let body = if lower_effort {
        lower(body)
    } else {
        body
    };
    let body = shorten(body, "max_tokens");
    let body = shorten(body, "max_output_tokens");
    shorten(body, "max_completion_tokens")
}

/// A body whose limit under a key is at least `limit`, where it has one.
pub open spec fn grown(tree: Tree, key: Seq<char>, limit: u64) -> Tree {
    match tree.unsigned_at(key) {
        Some(n) => if n < limit {
            tree.with(key, Tree::Number(text::decimal(limit as nat)))
        } else {
            tree
        },
        None => tree,
    }
}

/// A body with the limits that it has raised to `limit`.
pub open spec fn with_limit(tree: Tree, limit: u64) -> Tree {
    grown(
        grown(grown(tree, "max_tokens"@, limit), "max_output_tokens"@, limit),
        "max_completion_tokens"@,
        limit,
    )
}

fn grow(body: Json, key: &str, limit: u64) -> (r: Json)
    ensures
        r@ == grown(body@, key@, limit),
{
    match body.u64_at(key) {
        Some(n) => if n < limit {
            body.with(key, Json::number(limit))
        } else {
            body
        },
        None => body,
    }
}

/// Raises the limits that a body has.
pub fn raise_output_limit(body: Json, limit: u64) -> (r: Json)
    ensures
        r@ == with_limit(body@, limit),
{
    let body = grow(body, "max_tokens", limit);
    let body = grow(body, "max_output_tokens", limit);
    grow(body, "max_completion_tokens", limit)
}

/// The limit of a body: that under the first key that holds one.
pub open spec fn limit_of(tree: Tree) -> Option<u64> {
    if tree.unsigned_at("max_tokens"@) is Some {
        tree.unsigned_at("max_tokens"@)
    } else if tree.unsigned_at("max_output_tokens"@) is Some {
        tree.unsigned_at("max_output_tokens"@)
    } else {
        tree.unsigned_at("max_completion_tokens"@)
    }
}

/// The limit of a body that was read.
pub fn output_limit_of(body: &Json) -> (r: Option<u64>)
    ensures
        r == limit_of(body@),
{
    match body.u64_at("max_tokens") {
        Some(n) => Some(n),
        None => match body.u64_at("max_output_tokens") {
            Some(n) => Some(n),
            None => body.u64_at("max_completion_tokens"),
        },
    }
}

proof fn lemma_grown(tree: Tree, key: Seq<char>, other: Seq<char>, limit: u64)
    ensures
        tree.unsigned_at(key) matches Some(n) ==> grown(tree, key, limit).unsigned_at(key) == Some(
            if n < limit {
                limit
            } else {
                n
            },
        ),
        tree.unsigned_at(key) is None ==> grown(tree, key, limit) == tree,
        other != key ==> grown(tree, key, limit).get(other) == tree.get(other),
{
    json::lemma_decimal_value(limit as nat);
    if tree.unsigned_at(key) is Some {
        json::law_set_key_is_found(tree, key, Tree::Number(text::decimal(limit as nat)), other);
    }
}

/// A raised limit is the limit of the body, or the body had a larger one; and no
/// body gets a limit that had none.
pub proof fn law_raised_limit_is_the_limit(tree: Tree, limit: u64)
    ensures
        limit_of(with_limit(tree, limit)) == (match limit_of(tree) {
            Some(n) => Some(
                if n < limit {
                    limit
                } else {
                    n
                },
            ),
            None => None,
        }),
{
    lemma_limit_keys_differ();
    let a = grown(tree, "max_tokens"@, limit);
    let b = grown(a, "max_output_tokens"@, limit);
    lemma_grown(tree, "max_tokens"@, "max_output_tokens"@, limit);
    lemma_grown(tree, "max_tokens"@, "max_completion_tokens"@, limit);
    lemma_grown(a, "max_output_tokens"@, "max_tokens"@, limit);
    lemma_grown(a, "max_output_tokens"@, "max_completion_tokens"@, limit);
    lemma_grown(b, "max_completion_tokens"@, "max_tokens"@, limit);
    lemma_grown(b, "max_completion_tokens"@, "max_output_tokens"@, limit);
}

/// The next limit to try after `current` was not enough: four times as much, but
/// no more than the model's own and than half of its window.
pub open spec fn next_limit(current: u64, window: u64, known_limit: Option<u32>) -> Option<u64> {
    let own = match known_limit {
        Some(n) => n as u64,
        None => 32_768,
    };
    let ceiling = if own < window / 2 {
        own
    } else {
        window / 2
    };
    let next = if 4 * current < ceiling {
        (4 * current) as u64
    } else {
        ceiling
    };
    if next > current {
        Some(next)
    } else {
        None
    }
}

pub fn next_recovery_output_limit(current: u64, window: u64, known_limit: Option<u32>) -> (r:
    Option<u64>)
    ensures
        r == next_limit(current, window, known_limit),
        r matches Some(n) ==> current < n && 2 * n <= window,
{
    let own: u64 = match known_limit {
        Some(n) => n as u64,
        None => 32_768,
    };
    let ceiling: u64 = if own < window / 2 {
        own
    } else {
        window / 2
    };
    let wanted: u64 = arith::saturating_mul(current, 4);
    let next: u64 = if wanted < ceiling {
        wanted
    } else {
        ceiling
    };
    if next > current {
        Some(next)
    } else {
        None
    }
}

} // verus!
