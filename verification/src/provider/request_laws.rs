//! What a request keeps when its body is changed for a compaction, a last answer or
//! a second try, which headers it carries, and what an error says of the answer that
//! it came with.
use vstd::prelude::*;
use vstd::string::*;

use crate::context::compact::COMPACTION_SYSTEM_PROMPT;
use crate::json;
use crate::json::Tree;
use crate::provider::accounting::ProviderRequestFingerprints;
use crate::provider::adapter;
use crate::provider::adapter::ProviderAdapter;
use crate::provider::anthropic;
use crate::provider::bodies;
use crate::provider::config::{AuthView, ConfigView};
use crate::provider::endpoint::RequestView;
use crate::provider::failures;
use crate::provider::message::MessageView;
use crate::provider::openai;
use crate::provider::reasoning::ReasoningOff;
use crate::provider::request;
use crate::provider::request::RouteView;
use crate::provider::secrets;
use crate::provider::transport;
use crate::provider::transport::ProviderTimeouts;
use crate::provider::types::ErrorView;
use crate::text;

verus! {

/// The keys that are changed in a body are told apart.
proof fn lemma_changed_keys()
    ensures
        "system"@ != "instructions"@,
        "system"@ != "messages"@,
        "system"@ != "prompt_cache_key"@,
        "system"@ != "cache_control"@,
        "system"@ != "max_tokens"@,
        "system"@ != "max_output_tokens"@,
        "system"@ != "max_completion_tokens"@,
        "system"@ != "reasoning_effort"@,
        "system"@ != "reasoning"@,
        "system"@ != "input"@,
        "instructions"@ != "messages"@,
        "instructions"@ != "prompt_cache_key"@,
        "instructions"@ != "cache_control"@,
        "instructions"@ != "max_tokens"@,
        "instructions"@ != "max_output_tokens"@,
        "instructions"@ != "max_completion_tokens"@,
        "instructions"@ != "reasoning_effort"@,
        "instructions"@ != "reasoning"@,
        "instructions"@ != "input"@,
        "messages"@ != "prompt_cache_key"@,
        "messages"@ != "cache_control"@,
        "messages"@ != "max_tokens"@,
        "messages"@ != "max_output_tokens"@,
        "messages"@ != "max_completion_tokens"@,
        "messages"@ != "reasoning_effort"@,
        "messages"@ != "reasoning"@,
        "messages"@ != "input"@,
        "prompt_cache_key"@ != "cache_control"@,
        "prompt_cache_key"@ != "max_tokens"@,
        "prompt_cache_key"@ != "max_output_tokens"@,
        "prompt_cache_key"@ != "max_completion_tokens"@,
        "prompt_cache_key"@ != "reasoning_effort"@,
        "prompt_cache_key"@ != "reasoning"@,
        "prompt_cache_key"@ != "input"@,
        "cache_control"@ != "max_tokens"@,
        "cache_control"@ != "max_output_tokens"@,
        "cache_control"@ != "max_completion_tokens"@,
        "cache_control"@ != "reasoning_effort"@,
        "cache_control"@ != "reasoning"@,
        "cache_control"@ != "input"@,
        "max_tokens"@ != "max_output_tokens"@,
        "max_tokens"@ != "max_completion_tokens"@,
        "max_tokens"@ != "reasoning_effort"@,
        "max_tokens"@ != "reasoning"@,
        "max_tokens"@ != "input"@,
        "max_output_tokens"@ != "max_completion_tokens"@,
        "max_output_tokens"@ != "reasoning_effort"@,
        "max_output_tokens"@ != "reasoning"@,
        "max_output_tokens"@ != "input"@,
        "max_completion_tokens"@ != "reasoning_effort"@,
        "max_completion_tokens"@ != "reasoning"@,
        "max_completion_tokens"@ != "input"@,
        "reasoning_effort"@ != "reasoning"@,
        "reasoning_effort"@ != "input"@,
        "reasoning"@ != "input"@,
{
    reveal_strlit("system");
    reveal_strlit("instructions");
    reveal_strlit("messages");
    reveal_strlit("prompt_cache_key");
    reveal_strlit("cache_control");
    reveal_strlit("max_tokens");
    reveal_strlit("max_output_tokens");
    reveal_strlit("max_completion_tokens");
    reveal_strlit("reasoning_effort");
    reveal_strlit("reasoning");
    reveal_strlit("input");
    assert("system"@.len() != "instructions"@.len());
    assert("system"@.len() != "messages"@.len());
    assert("system"@.len() != "prompt_cache_key"@.len());
    assert("system"@.len() != "cache_control"@.len());
    assert("system"@.len() != "max_tokens"@.len());
    assert("system"@.len() != "max_output_tokens"@.len());
    assert("system"@.len() != "max_completion_tokens"@.len());
    assert("system"@.len() != "reasoning_effort"@.len());
    assert("system"@.len() != "reasoning"@.len());
    assert("system"@.len() != "input"@.len());
    assert("instructions"@.len() != "messages"@.len());
    assert("instructions"@.len() != "prompt_cache_key"@.len());
    assert("instructions"@.len() != "cache_control"@.len());
    assert("instructions"@.len() != "max_tokens"@.len());
    assert("instructions"@.len() != "max_output_tokens"@.len());
    assert("instructions"@.len() != "max_completion_tokens"@.len());
    assert("instructions"@.len() != "reasoning_effort"@.len());
    assert("instructions"@.len() != "reasoning"@.len());
    assert("instructions"@.len() != "input"@.len());
    assert("messages"@.len() != "prompt_cache_key"@.len());
    assert("messages"@.len() != "cache_control"@.len());
    assert("messages"@.len() != "max_tokens"@.len());
    assert("messages"@.len() != "max_output_tokens"@.len());
    assert("messages"@.len() != "max_completion_tokens"@.len());
    assert("messages"@.len() != "reasoning_effort"@.len());
    assert("messages"@.len() != "reasoning"@.len());
    assert("messages"@.len() != "input"@.len());
    assert("prompt_cache_key"@.len() != "cache_control"@.len());
    assert("prompt_cache_key"@.len() != "max_tokens"@.len());
    assert("prompt_cache_key"@.len() != "max_output_tokens"@.len());
    assert("prompt_cache_key"@.len() != "max_completion_tokens"@.len());
    assert("prompt_cache_key"@[0] != "reasoning_effort"@[0]);
    assert("prompt_cache_key"@.len() != "reasoning"@.len());
    assert("prompt_cache_key"@.len() != "input"@.len());
    assert("cache_control"@.len() != "max_tokens"@.len());
    assert("cache_control"@.len() != "max_output_tokens"@.len());
    assert("cache_control"@.len() != "max_completion_tokens"@.len());
    assert("cache_control"@.len() != "reasoning_effort"@.len());
    assert("cache_control"@.len() != "reasoning"@.len());
    assert("cache_control"@.len() != "input"@.len());
    assert("max_tokens"@.len() != "max_output_tokens"@.len());
    assert("max_tokens"@.len() != "max_completion_tokens"@.len());
    assert("max_tokens"@.len() != "reasoning_effort"@.len());
    assert("max_tokens"@.len() != "reasoning"@.len());
    assert("max_tokens"@.len() != "input"@.len());
    assert("max_output_tokens"@.len() != "max_completion_tokens"@.len());
    assert("max_output_tokens"@.len() != "reasoning_effort"@.len());
    assert("max_output_tokens"@.len() != "reasoning"@.len());
    assert("max_output_tokens"@.len() != "input"@.len());
    assert("max_completion_tokens"@.len() != "reasoning_effort"@.len());
    assert("max_completion_tokens"@.len() != "reasoning"@.len());
    assert("max_completion_tokens"@.len() != "input"@.len());
    assert("reasoning_effort"@.len() != "reasoning"@.len());
    assert("reasoning_effort"@.len() != "input"@.len());
    assert("reasoning"@.len() != "input"@.len());
}
/// Whether a key is none of those under which a body names its limit.
pub open spec fn no_limit(key: Seq<char>) -> bool {
    key != "max_tokens"@ && key != "max_output_tokens"@ && key != "max_completion_tokens"@
}

/// A body made fit for a compaction carries the rules of the compaction in the place
/// of its own, and keeps all else but its limits and what belongs to a cache: the
/// conversation above all.
pub proof fn law_compaction_keeps_the_conversation(tree: Tree, key: Seq<char>)
    requires
        tree is Object,
        key != "system"@,
        key != "prompt_cache_key"@,
        key != "cache_control"@,
        no_limit(key),
    ensures
        bodies::hardened(tree, true) matches Ok(body) && body.get(key) == tree.get(key)
            && body.text_at("system"@) == Some(COMPACTION_SYSTEM_PROMPT@),
{
    broadcast use {json::lemma_key_set, json::lemma_key_removed};

    lemma_changed_keys();
}

proof fn lemma_filtered(items: Seq<Tree>)
    ensures
        bodies::without_system(items) == items.filter(
            |item: Tree| item.text_at("role"@) != Some("system"@),
        ),
    decreases items.len(),
{
    reveal(Seq::filter);
    if items.len() > 0 {
        lemma_filtered(items.drop_last());
    } else {
        assert(items =~= Seq::empty());
    }
}

/// The same of a chat: the rules come first, and every message follows that is none
/// of the system, in its order and as it was.
pub proof fn law_compaction_keeps_the_chat(tree: Tree, items: Seq<Tree>, key: Seq<char>)
    requires
        tree is Object,
        tree.get("instructions"@) is None,
        tree.get("input"@) is None,
        tree.get("messages"@) == Some(Tree::Array(items)),
        key != "messages"@,
        key != "prompt_cache_key"@,
        key != "cache_control"@,
        no_limit(key),
    ensures
        bodies::hardened(tree, false) matches Ok(body) && body.get(key) == tree.get(key) && (
        body.items_at("messages"@) matches Some(sent) && sent.len() > 0 && sent.skip(1)
            == items.filter(|item: Tree| item.text_at("role"@) != Some("system"@))
            && sent[0].text_at("role"@) == Some("system"@) && sent[0].text_at("content"@) == Some(
            COMPACTION_SYSTEM_PROMPT@,
        )),
{
    broadcast use {json::lemma_key_set, json::lemma_key_removed};

    lemma_changed_keys();
    lemma_filtered(items);
    reveal_strlit("role");
    reveal_strlit("content");
    assert("role"@.len() != "content"@.len());
    let sent = seq![bodies::authority_message()] + bodies::without_system(items);
    assert(sent.skip(1) =~= bodies::without_system(items));
}

/// A limit is never raised for a compaction, and only lowered where it is too high.
pub proof fn law_compaction_lowers_high_limits_alone(tree: Tree)
    requires
        tree is Object,
    ensures
        bodies::hardened(tree, true) matches Ok(body) && match tree.unsigned_at("max_tokens"@) {
            Some(n) => body.unsigned_at("max_tokens"@) == Some(
                if n > 2_048 {
                    2_048
                } else {
                    n
                },
            ),
            None => body.unsigned_at("max_tokens"@) is None,
        },
{
    broadcast use {json::lemma_key_set, json::lemma_key_removed};

    lemma_changed_keys();
    json::lemma_decimal_value(2_048);
}

/// The body of a last answer keeps all but its limits and its effort: each limit is
/// the smaller of its own and that of a last answer, and effort is low only where it
/// is to be lowered and was asked for.
pub proof fn law_last_answers_keep_the_conversation(tree: Tree, lower: bool, key: Seq<char>)
    requires
        tree is Object,
        key != "reasoning_effort"@,
        key != "reasoning"@,
        no_limit(key),
    ensures
        ({
            let body = bodies::finalized(tree, lower);
            &&& body.get(key) == tree.get(key)
            &&& !lower ==> body.get("reasoning_effort"@) == tree.get("reasoning_effort"@)
                && body.get("reasoning"@) == tree.get("reasoning"@)
            &&& lower ==> (match tree.get("reasoning_effort"@) {
                Some(_) => body.text_at("reasoning_effort"@) == Some("low"@),
                None => body.get("reasoning_effort"@) is None,
            })
            &&& match tree.unsigned_at("max_tokens"@) {
                Some(n) => body.unsigned_at("max_tokens"@) == Some(
                    if n > 2_048 {
                        2_048
                    } else {
                        n
                    },
                ),
                None => body.get("max_tokens"@) == tree.get("max_tokens"@),
            }
        }),
{
    broadcast use {json::lemma_key_set, json::lemma_key_removed};

    lemma_changed_keys();
    json::lemma_decimal_value(2_048);
    if let Some(n) = tree.unsigned_at("max_tokens"@) {
        json::lemma_decimal_value(n as nat);
    }
}

/// A second try raises limits and changes nothing else.
pub proof fn law_raised_limits_change_nothing_else(tree: Tree, limit: u64, key: Seq<char>)
    requires
        tree is Object,
        no_limit(key),
    ensures
        bodies::with_limit(tree, limit).get(key) == tree.get(key),
{
    broadcast use json::lemma_key_set;

}

/// A request that is ready to be sent goes where the request goes, with its headers and
/// its body, character by character.
pub proof fn law_prepared_requests_are_sent_as_built(
    built: RequestView,
    tree: Option<Tree>,
    route: RouteView,
    known: Option<ProviderRequestFingerprints>,
)
    ensures
        ({
            let ready = request::prepared(built, tree, route, known);
            &&& ready.url == built.url
            &&& ready.headers == built.headers
            &&& vstd::utf8::valid_utf8(ready.body)
            &&& vstd::utf8::decode_utf8(ready.body) == built.body
            &&& built.body.len() <= u64::MAX ==> ready.serialized_chars == built.body.len()
            &&& ready.scope_id == route.scope_id
        }),
{
    vstd::utf8::encode_utf8_decode_utf8(built.body);
    vstd::utf8::encode_utf8_valid_utf8(built.body);
}

/// A request that is made fit for a compaction goes where it went, with the headers
/// that it had.
pub proof fn law_compaction_requests_go_where_they_went(
    built: RequestView,
    intent: spec_fn(Tree) -> Option<Tree>,
)
    ensures
        adapter::compaction_request(built, intent) matches Ok(changed) ==> changed.url == built.url
            && changed.headers == built.headers,
        json::parsed(built.body) is Err ==> adapter::compaction_request(built, intent) is Err,
        request::anthropic_wire(built.headers) ==> (json::parsed(built.body) matches Ok(tree)
            ==> tree is Object ==> adapter::compaction_request(built, intent) is Ok),
{
}

/// A prompt that stands for messages shows the text of each, and of a tool's result
/// also the tool.
pub proof fn law_plain_prompts_show_every_message(messages: Seq<MessageView>, i: int)
    requires
        0 <= i < messages.len(),
    ensures
        text::contains(adapter::plain_prompt(messages), messages[i].content),
        messages[i].role == "tool"@ ==> (messages[i].name matches Some(name) ==> text::contains(
            adapter::plain_prompt(messages),
            "tool "@ + name + ": "@ + messages[i].content,
        )),
{
    let parts = messages.map_values(|m: MessageView| adapter::plain_words(m));
    let whole = adapter::plain_prompt(messages);
    text::law_joined_parts_are_there(parts, "\n\n"@, i);
    let at = text::part_start(parts, "\n\n"@, i);
    let part = parts[i];
    assert(text::occurs_at(whole, part, at));
    let content = messages[i].content;
    let lead = part.len() - content.len();
    assert(part.subrange(lead, part.len() as int) =~= content);
    assert(whole.subrange(at + lead, at + lead + content.len()) =~= whole.subrange(
        at,
        at + part.len() as int,
    ).subrange(lead, part.len() as int));
    assert(text::occurs_at(whole, content, at + lead));
}

/// Nothing is waited for longer than a pause may last, and until something of the
/// answer itself has arrived, not beyond the moment by which it must have.
pub proof fn law_waits_are_bounded(
    timeouts: ProviderTimeouts,
    elapsed: u128,
    more: u128,
    saw_semantic: bool,
)
    ensures
        ({
            let wait = timeouts.chunk_time(elapsed, saw_semantic);
            &&& wait <= timeouts.idle
            &&& saw_semantic ==> wait == timeouts.idle
            &&& !saw_semantic && elapsed <= timeouts.first_semantic ==> elapsed + wait
                <= timeouts.first_semantic
            &&& !saw_semantic && elapsed >= timeouts.first_semantic ==> wait == 0
            &&& !saw_semantic && wait < timeouts.idle && elapsed <= timeouts.first_semantic
                ==> elapsed + wait == timeouts.first_semantic
            &&& elapsed <= more ==> timeouts.chunk_time(more, saw_semantic) <= wait
        }),
{
}

/// A request for a closing answer goes where the request went, with its headers.
pub proof fn law_closing_requests_go_where_they_went<A: ProviderAdapter>(
    asked: &A,
    built: RequestView,
    supports_low: bool,
    credential_scope: u128,
)
    ensures
        adapter::finalization(asked, built, supports_low, credential_scope) matches Ok(ready)
            ==> ready.url == built.url && ready.headers == built.headers,
        json::parsed(built.body) is Err ==> adapter::finalization(
            asked,
            built,
            supports_low,
            credential_scope,
        ) is Err,
{
}

/// A header's value, by its name.
pub open spec fn carries(headers: Seq<(Seq<char>, Seq<char>)>, name: Seq<char>, value: Seq<
    char,
>) -> bool {
    exists|i: int| 0 <= i < headers.len() && #[trigger] headers[i] == (name, value)
}

/// A chat request carries the credential, says that its body is JSON, and carries
/// every header that was configured.
pub proof fn law_chat_requests_carry_the_credential(config: ConfigView, k: int)
    ensures
        carries(
            openai::chat_headers(config),
            "Authorization"@,
            "Bearer "@ + config.settings.auth.secret(),
        ),
        carries(openai::chat_headers(config), "Content-Type"@, "application/json"@),
        0 <= k < config.settings.extra_headers.len() ==> openai::chat_headers(config).contains(
            config.settings.extra_headers[k],
        ),
        openai::chat_headers(config).len() == 2 + config.settings.extra_headers.len(),
{
    let all = openai::chat_headers(config);
    assert(all[0] == ("Authorization"@, "Bearer "@ + config.settings.auth.secret()));
    assert(all[1] == ("Content-Type"@, "application/json"@));
    if 0 <= k < config.settings.extra_headers.len() {
        assert(all[2 + k] == config.settings.extra_headers[k]);
    }
}

/// A request in the messages format carries the credential under the header of its
/// kind, the version of the format, and every header that was configured.
pub proof fn law_messages_requests_carry_the_credential(
    config: ConfigView,
    brand: Seq<char>,
    k: int,
)
    ensures
        match config.settings.auth {
            AuthView::ApiKey(key) => carries(anthropic::wire_headers(config, brand), "x-api-key"@, key),
            _ => carries(
                anthropic::wire_headers(config, brand),
                "Authorization"@,
                "Bearer "@ + config.settings.auth.secret(),
            ),
        },
        carries(anthropic::wire_headers(config, brand), "anthropic-version"@, "2023-06-01"@),
        carries(anthropic::wire_headers(config, brand), "Content-Type"@, "application/json"@),
        0 <= k < config.settings.extra_headers.len() ==> anthropic::wire_headers(
            config,
            brand,
        ).contains(config.settings.extra_headers[k]),
{
    let all = anthropic::wire_headers(config, brand);
    let n = all.len() - config.settings.extra_headers.len();
    assert(all[0] == anthropic::credential_header(config.settings.auth));
    assert(all[n - 2] == ("anthropic-version"@, "2023-06-01"@));
    assert(all[n - 1] == ("Content-Type"@, "application/json"@));
    if 0 <= k < config.settings.extra_headers.len() {
        assert(all[n + k] == config.settings.extra_headers[k]);
    }
}

/// The effort that requests ask for is the one configured, unless reasoning is switched
/// off: then it is none where that is how it is switched off, and not asked for else.
pub proof fn law_effort_is_as_configured(config: ConfigView)
    ensures
        config.settings.off is None ==> config.effective_effort() == config.settings.effort,
        config.settings.off == Some(ReasoningOff::EffortNone) ==> config.effective_effort() == Some(
            "none"@,
        ),
        config.settings.off == Some(ReasoningOff::ThinkingDisabled)
            ==> config.effective_effort() is None,
{
}

/// The words of an error.
pub open spec fn words_of(error: ErrorView) -> Option<Seq<char>> {
    match error {
        ErrorView::Api { message, .. } => Some(message),
        ErrorView::Remote { message } => Some(message),
        ErrorView::Http { message, .. } => Some(message),
        _ => None,
    }
}

/// An error that a stream reports is told in its own words, without secrets and cut
/// to their beginning; short words without secrets are told as they are.
pub proof fn law_reported_errors_are_told_in_their_words(
    tree: Tree,
    words: Seq<char>,
    values: Seq<Seq<char>>,
)
    requires
        json::under(tree, "error"@, "message"@) == Some(Tree::Text(words)),
    ensures
        words_of(failures::stream_error(tree, values)) == Some(
            text::first_chars(secrets::redacted(words, values), 512),
        ),
        words.len() <= 512 && (forall|v: Seq<char>| #[trigger]
            values.contains(v) && v.len() > 0 ==> !text::contains(words, v)) ==> words_of(
            failures::stream_error(tree, values),
        ) == Some(words),
{
    if words.len() <= 512 && (forall|v: Seq<char>| #[trigger]
        values.contains(v) && v.len() > 0 ==> !text::contains(words, v)) {
        secrets::law_clean_text_is_kept(words, values);
    }
}

/// A refusal is told with its status and the delay that it asks for, and either as
/// the error that its text describes or by the beginning of its text.
pub proof fn law_refusals_are_told(
    status: u16,
    retry_after: Option<u128>,
    body: Seq<char>,
    read: Option<Tree>,
    values: Seq<Seq<char>>,
)
    ensures
        match transport::refusal(status, retry_after, body, read, values) {
            ErrorView::Api { metadata, message } => metadata.status == Some(status)
                && metadata.retry_after == retry_after && read is Some,
            ErrorView::Http { status: told, retry_after: delay, message } => told == status && delay
                == retry_after && ("http "@ + text::decimal(status as nat) + ": "@).is_prefix_of(
                message,
            ) && text::first_chars(secrets::redacted(body, values), 512).is_suffix_of(message),
            _ => false,
        },
{
    let message = transport::refusal_words(status, body, values);
    let lead = "http "@ + text::decimal(status as nat) + ": "@;
    let tail = text::first_chars(secrets::redacted(body, values), 512);
    assert(lead =~= message.subrange(0, lead.len() as int));
    assert(tail =~= message.subrange(message.len() - tail.len(), message.len() as int));
}

/// A delay that is given in seconds is waited for that many seconds, white space
/// around it or not.
pub proof fn law_delays_in_seconds_are_waited_for(value: Seq<char>, seconds: u64, now: u128)
    requires
        text::trim(value) == text::decimal(seconds as nat),
    ensures
        failures::retry_delay(value, now) == Some((seconds * 1_000_000_000) as u128),
{
    json::lemma_decimal_value(seconds as nat);
}

/// A delay up to a date lasts until that date, and not at all once it has passed.
pub proof fn law_delays_until_a_date_end_there(value: Seq<char>, second: u64, now: u128)
    requires
        !json::all_digits(text::trim(value)),
        failures::http_date(text::trim(value)) == Some(second),
    ensures
        failures::retry_delay(value, now) matches Some(delay) && (now + delay == second
            * 1_000_000_000 || (delay == 0 && now >= second * 1_000_000_000)),
{
}

/// Taking secrets out of an error leaves its kind, its status and its delay.
pub proof fn law_redacted_errors_keep_their_kind(error: ErrorView, values: Seq<Seq<char>>)
    ensures
        match (error, failures::redacted_error(error, values)) {
            (
                ErrorView::Http { status, retry_after, message },
                ErrorView::Http { status: s, retry_after: r, message: m },
            ) => s == status && r == retry_after && m == secrets::redacted(message, values),
            (ErrorView::Http { .. }, _) => false,
            (ErrorView::Api { metadata, message }, ErrorView::Api { metadata: d, message: m }) =>
            d.status == metadata.status && d.retry_after == metadata.retry_after && m
                == secrets::redacted(message, values),
            (ErrorView::Api { .. }, _) => false,
            (ErrorView::Remote { message }, ErrorView::Remote { message: m }) => m
                == secrets::redacted(message, values),
            (ErrorView::Remote { .. }, _) => false,
            (
                ErrorView::Transport { safe_to_retry, message },
                ErrorView::Transport { safe_to_retry: s, message: m },
            ) => s == safe_to_retry && m == secrets::redacted(message, values),
            (ErrorView::Transport { .. }, _) => false,
            _ => true,
        },
{
}

} // verus!
