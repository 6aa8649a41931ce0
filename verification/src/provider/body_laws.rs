//! What a provider can read from the body of a request: every message, every tool
//! call with its arguments, every result, the rules and the tools, each at its
//! place.
use vstd::prelude::*;
use vstd::string::*;

use crate::json;
use crate::json::Tree;
use crate::provider::anthropic;
use crate::provider::config::{ConfigView, NATIVE_SYSTEM_PROMPT};
use crate::provider::content;
use crate::provider::message::{BlockView, MessageView};
use crate::text;

verus! {

/// The keys of a body in the messages format are told apart.
proof fn lemma_messages_keys()
    ensures
        "model"@ != "max_tokens"@,
        "model"@ != "messages"@,
        "model"@ != "stream"@,
        "model"@ != "system"@,
        "model"@ != "output_config"@,
        "model"@ != "thinking"@,
        "model"@ != "tools"@,
        "model"@ != "cache_control"@,
        "max_tokens"@ != "messages"@,
        "max_tokens"@ != "stream"@,
        "max_tokens"@ != "system"@,
        "max_tokens"@ != "output_config"@,
        "max_tokens"@ != "thinking"@,
        "max_tokens"@ != "tools"@,
        "max_tokens"@ != "cache_control"@,
        "messages"@ != "stream"@,
        "messages"@ != "system"@,
        "messages"@ != "output_config"@,
        "messages"@ != "thinking"@,
        "messages"@ != "tools"@,
        "messages"@ != "cache_control"@,
        "stream"@ != "system"@,
        "stream"@ != "output_config"@,
        "stream"@ != "thinking"@,
        "stream"@ != "tools"@,
        "stream"@ != "cache_control"@,
        "system"@ != "output_config"@,
        "system"@ != "thinking"@,
        "system"@ != "tools"@,
        "system"@ != "cache_control"@,
        "output_config"@ != "thinking"@,
        "output_config"@ != "tools"@,
        "output_config"@ != "cache_control"@,
        "thinking"@ != "tools"@,
        "thinking"@ != "cache_control"@,
        "tools"@ != "cache_control"@,
{
    reveal_strlit("model");
    reveal_strlit("max_tokens");
    reveal_strlit("messages");
    reveal_strlit("stream");
    reveal_strlit("system");
    reveal_strlit("output_config");
    reveal_strlit("thinking");
    reveal_strlit("tools");
    reveal_strlit("cache_control");
    assert("model"@.len() != "max_tokens"@.len());
    assert("model"@.len() != "messages"@.len());
    assert("model"@.len() != "stream"@.len());
    assert("model"@.len() != "system"@.len());
    assert("model"@.len() != "output_config"@.len());
    assert("model"@.len() != "thinking"@.len());
    assert("model"@[0] != "tools"@[0]);
    assert("model"@.len() != "cache_control"@.len());
    assert("max_tokens"@.len() != "messages"@.len());
    assert("max_tokens"@.len() != "stream"@.len());
    assert("max_tokens"@.len() != "system"@.len());
    assert("max_tokens"@.len() != "output_config"@.len());
    assert("max_tokens"@.len() != "thinking"@.len());
    assert("max_tokens"@.len() != "tools"@.len());
    assert("max_tokens"@.len() != "cache_control"@.len());
    assert("messages"@.len() != "stream"@.len());
    assert("messages"@.len() != "system"@.len());
    assert("messages"@.len() != "output_config"@.len());
    assert("messages"@[0] != "thinking"@[0]);
    assert("messages"@.len() != "tools"@.len());
    assert("messages"@.len() != "cache_control"@.len());
    assert("stream"@[1] != "system"@[1]);
    assert("stream"@.len() != "output_config"@.len());
    assert("stream"@.len() != "thinking"@.len());
    assert("stream"@.len() != "tools"@.len());
    assert("stream"@.len() != "cache_control"@.len());
    assert("system"@.len() != "output_config"@.len());
    assert("system"@.len() != "thinking"@.len());
    assert("system"@.len() != "tools"@.len());
    assert("system"@.len() != "cache_control"@.len());
    assert("output_config"@.len() != "thinking"@.len());
    assert("output_config"@.len() != "tools"@.len());
    assert("output_config"@[0] != "cache_control"@[0]);
    assert("thinking"@.len() != "tools"@.len());
    assert("thinking"@.len() != "cache_control"@.len());
    assert("tools"@.len() != "cache_control"@.len());
}
/// The keys of a message and of a block are told apart.
proof fn lemma_block_keys()
    ensures
        "type"@ != "role"@,
        "type"@ != "content"@,
        "type"@ != "id"@,
        "type"@ != "name"@,
        "type"@ != "input"@,
        "type"@ != "text"@,
        "type"@ != "source"@,
        "type"@ != "media_type"@,
        "type"@ != "data"@,
        "type"@ != "tool_use_id"@,
        "type"@ != "cache_control"@,
        "type"@ != "effort"@,
        "role"@ != "content"@,
        "role"@ != "id"@,
        "role"@ != "name"@,
        "role"@ != "input"@,
        "role"@ != "text"@,
        "role"@ != "source"@,
        "role"@ != "media_type"@,
        "role"@ != "data"@,
        "role"@ != "tool_use_id"@,
        "role"@ != "cache_control"@,
        "role"@ != "effort"@,
        "content"@ != "id"@,
        "content"@ != "name"@,
        "content"@ != "input"@,
        "content"@ != "text"@,
        "content"@ != "source"@,
        "content"@ != "media_type"@,
        "content"@ != "data"@,
        "content"@ != "tool_use_id"@,
        "content"@ != "cache_control"@,
        "content"@ != "effort"@,
        "id"@ != "name"@,
        "id"@ != "input"@,
        "id"@ != "text"@,
        "id"@ != "source"@,
        "id"@ != "media_type"@,
        "id"@ != "data"@,
        "id"@ != "tool_use_id"@,
        "id"@ != "cache_control"@,
        "id"@ != "effort"@,
        "name"@ != "input"@,
        "name"@ != "text"@,
        "name"@ != "source"@,
        "name"@ != "media_type"@,
        "name"@ != "data"@,
        "name"@ != "tool_use_id"@,
        "name"@ != "cache_control"@,
        "name"@ != "effort"@,
        "input"@ != "text"@,
        "input"@ != "source"@,
        "input"@ != "media_type"@,
        "input"@ != "data"@,
        "input"@ != "tool_use_id"@,
        "input"@ != "cache_control"@,
        "input"@ != "effort"@,
        "text"@ != "source"@,
        "text"@ != "media_type"@,
        "text"@ != "data"@,
        "text"@ != "tool_use_id"@,
        "text"@ != "cache_control"@,
        "text"@ != "effort"@,
        "source"@ != "media_type"@,
        "source"@ != "data"@,
        "source"@ != "tool_use_id"@,
        "source"@ != "cache_control"@,
        "source"@ != "effort"@,
        "media_type"@ != "data"@,
        "media_type"@ != "tool_use_id"@,
        "media_type"@ != "cache_control"@,
        "media_type"@ != "effort"@,
        "data"@ != "tool_use_id"@,
        "data"@ != "cache_control"@,
        "data"@ != "effort"@,
        "tool_use_id"@ != "cache_control"@,
        "tool_use_id"@ != "effort"@,
        "cache_control"@ != "effort"@,
{
    reveal_strlit("type");
    reveal_strlit("role");
    reveal_strlit("content");
    reveal_strlit("id");
    reveal_strlit("name");
    reveal_strlit("input");
    reveal_strlit("text");
    reveal_strlit("source");
    reveal_strlit("media_type");
    reveal_strlit("data");
    reveal_strlit("tool_use_id");
    reveal_strlit("cache_control");
    reveal_strlit("effort");
    assert("type"@[0] != "role"@[0]);
    assert("type"@.len() != "content"@.len());
    assert("type"@.len() != "id"@.len());
    assert("type"@[0] != "name"@[0]);
    assert("type"@.len() != "input"@.len());
    assert("type"@[1] != "text"@[1]);
    assert("type"@.len() != "source"@.len());
    assert("type"@.len() != "media_type"@.len());
    assert("type"@[0] != "data"@[0]);
    assert("type"@.len() != "tool_use_id"@.len());
    assert("type"@.len() != "cache_control"@.len());
    assert("type"@.len() != "effort"@.len());
    assert("role"@.len() != "content"@.len());
    assert("role"@.len() != "id"@.len());
    assert("role"@[0] != "name"@[0]);
    assert("role"@.len() != "input"@.len());
    assert("role"@[0] != "text"@[0]);
    assert("role"@.len() != "source"@.len());
    assert("role"@.len() != "media_type"@.len());
    assert("role"@[0] != "data"@[0]);
    assert("role"@.len() != "tool_use_id"@.len());
    assert("role"@.len() != "cache_control"@.len());
    assert("role"@.len() != "effort"@.len());
    assert("content"@.len() != "id"@.len());
    assert("content"@.len() != "name"@.len());
    assert("content"@.len() != "input"@.len());
    assert("content"@.len() != "text"@.len());
    assert("content"@.len() != "source"@.len());
    assert("content"@.len() != "media_type"@.len());
    assert("content"@.len() != "data"@.len());
    assert("content"@.len() != "tool_use_id"@.len());
    assert("content"@.len() != "cache_control"@.len());
    assert("content"@.len() != "effort"@.len());
    assert("id"@.len() != "name"@.len());
    assert("id"@.len() != "input"@.len());
    assert("id"@.len() != "text"@.len());
    assert("id"@.len() != "source"@.len());
    assert("id"@.len() != "media_type"@.len());
    assert("id"@.len() != "data"@.len());
    assert("id"@.len() != "tool_use_id"@.len());
    assert("id"@.len() != "cache_control"@.len());
    assert("id"@.len() != "effort"@.len());
    assert("name"@.len() != "input"@.len());
    assert("name"@[0] != "text"@[0]);
    assert("name"@.len() != "source"@.len());
    assert("name"@.len() != "media_type"@.len());
    assert("name"@[0] != "data"@[0]);
    assert("name"@.len() != "tool_use_id"@.len());
    assert("name"@.len() != "cache_control"@.len());
    assert("name"@.len() != "effort"@.len());
    assert("input"@.len() != "text"@.len());
    assert("input"@.len() != "source"@.len());
    assert("input"@.len() != "media_type"@.len());
    assert("input"@.len() != "data"@.len());
    assert("input"@.len() != "tool_use_id"@.len());
    assert("input"@.len() != "cache_control"@.len());
    assert("input"@.len() != "effort"@.len());
    assert("text"@.len() != "source"@.len());
    assert("text"@.len() != "media_type"@.len());
    assert("text"@[0] != "data"@[0]);
    assert("text"@.len() != "tool_use_id"@.len());
    assert("text"@.len() != "cache_control"@.len());
    assert("text"@.len() != "effort"@.len());
    assert("source"@.len() != "media_type"@.len());
    assert("source"@.len() != "data"@.len());
    assert("source"@.len() != "tool_use_id"@.len());
    assert("source"@.len() != "cache_control"@.len());
    assert("source"@[0] != "effort"@[0]);
    assert("media_type"@.len() != "data"@.len());
    assert("media_type"@.len() != "tool_use_id"@.len());
    assert("media_type"@.len() != "cache_control"@.len());
    assert("media_type"@.len() != "effort"@.len());
    assert("data"@.len() != "tool_use_id"@.len());
    assert("data"@.len() != "cache_control"@.len());
    assert("data"@.len() != "effort"@.len());
    assert("tool_use_id"@.len() != "cache_control"@.len());
    assert("tool_use_id"@.len() != "effort"@.len());
    assert("cache_control"@.len() != "effort"@.len());
}
/// What a body in the messages format holds besides its marks.
proof fn lemma_messages_body(config: ConfigView, messages: Seq<MessageView>, tools: Seq<Tree>)
    ensures
        anthropic::wire_body(config, messages, tools) is Object,
        anthropic::wire_body(config, messages, tools).get("model"@) == Some(
            Tree::Text(config.model),
        ),
        anthropic::wire_body(config, messages, tools).get("stream"@) == Some(Tree::Bool(true)),
        anthropic::wire_body(config, messages, tools).get("max_tokens"@) == Some(
            Tree::Number(text::decimal(config.settings.max_output_tokens as nat)),
        ),
        anthropic::wire_body(config, messages, tools).get("messages"@) == Some(
            Tree::Array(anthropic::wire_messages(messages)),
        ),
{
    broadcast use json::lemma_key_set;

    lemma_messages_keys();
}

/// The model, the limit, the wish for a stream and the wish for effort stand in the
/// body as they were configured.
pub proof fn law_a_messages_request_says_what_was_configured(
    config: ConfigView,
    messages: Seq<MessageView>,
    tools: Seq<Tree>,
)
    ensures
        anthropic::wire_body(config, messages, tools).text_at("model"@) == Some(config.model),
        anthropic::wire_body(config, messages, tools).get("stream"@) == Some(Tree::Bool(true)),
        anthropic::wire_body(config, messages, tools).unsigned_at("max_tokens"@) == Some(
            config.settings.max_output_tokens as u64,
        ),
        match config.effective_effort() {
            Some(effort) => json::under(
                anthropic::wire_body(config, messages, tools),
                "output_config"@,
                "effort"@,
            ) == Some(Tree::Text(effort)),
            None => anthropic::wire_body(config, messages, tools).get("output_config"@) is None,
        },
{
    broadcast use json::lemma_key_set;

    lemma_messages_keys();
    lemma_messages_body(config, messages, tools);
    json::lemma_decimal_value(config.settings.max_output_tokens as nat);
}

/// The rules reach the model word for word: those of the configuration, else the
/// library's own; rules that are empty are left out.
pub proof fn law_the_rules_are_sent(
    config: ConfigView,
    messages: Seq<MessageView>,
    tools: Seq<Tree>,
)
    ensures
        match config.settings.prompt {
            Some(prompt) if prompt.len() == 0 => anthropic::wire_body(
                config,
                messages,
                tools,
            ).get("system"@) is None,
            Some(prompt) => {
                &&& anthropic::wire_body(config, messages, tools).items_at(
                    "system"@,
                ) matches Some(rules)
                &&& rules.len() == 1
                &&& rules[0].text_at("type"@) == Some("text"@)
                &&& rules[0].text_at("text"@) == Some(prompt)
            },
            None => {
                &&& anthropic::wire_body(config, messages, tools).items_at(
                    "system"@,
                ) matches Some(rules)
                &&& rules.len() == 1
                &&& rules[0].text_at("type"@) == Some("text"@)
                &&& rules[0].text_at("text"@) == Some(NATIVE_SYSTEM_PROMPT@)
            },
        },
{
    broadcast use json::lemma_key_set;

    lemma_messages_keys();
    lemma_block_keys();
}

/// Every tool is offered at its place with all that it holds: the mark on the last
/// one is all that is added, and only what stood under the mark's own key can be
/// lost.
pub proof fn law_the_tools_are_sent(
    config: ConfigView,
    messages: Seq<MessageView>,
    tools: Seq<Tree>,
    i: int,
    key: Seq<char>,
)
    requires
        0 <= i < tools.len(),
        key != "cache_control"@,
    ensures
        anthropic::wire_body(config, messages, tools).items_at("tools"@) matches Some(sent)
            && sent.len() == tools.len() && sent[i].get(key) == tools[i].get(key) && (i
            < tools.len() - 1 ==> sent[i] == tools[i]),
{
    broadcast use json::lemma_key_set;

    lemma_messages_keys();
}

/// Without tools none are offered.
pub proof fn law_no_tools_are_made_up(config: ConfigView, messages: Seq<MessageView>)
    ensures
        anthropic::wire_body(config, messages, Seq::empty()).get("tools"@) is None,
{
    broadcast use json::lemma_key_set;

    lemma_messages_keys();
}

/// Every message has its place in the body, and no other stands there.
pub proof fn law_every_message_has_its_place(
    config: ConfigView,
    messages: Seq<MessageView>,
    tools: Seq<Tree>,
)
    ensures
        anthropic::wire_body(config, messages, tools).items_at("messages"@) matches Some(sent)
            && sent.len() == messages.len(),
{
    lemma_messages_body(config, messages, tools);
}

/// The result of a tool is handed in word for word, with the id of its call, in
/// the user's name, at the message's place.
pub proof fn law_tool_results_are_sent(
    config: ConfigView,
    messages: Seq<MessageView>,
    tools: Seq<Tree>,
    i: int,
)
    requires
        0 <= i < messages.len(),
        messages[i].role == "tool"@,
    ensures
        anthropic::wire_body(config, messages, tools).items_at("messages"@) matches Some(sent)
            && sent[i].text_at("role"@) == Some("user"@) && (sent[i].items_at(
            "content"@,
        ) matches Some(blocks) && blocks.len() == 1 && blocks[0].text_at("type"@) == Some(
            "tool_result"@,
        ) && blocks[0].text_at("content"@) == Some(messages[i].content) && blocks[0].text_at(
            "tool_use_id"@,
        ) == messages[i].tool_call_id),
{
    broadcast use json::lemma_key_set;

    lemma_messages_body(config, messages, tools);
    lemma_block_keys();
    assert(anthropic::wire_messages(messages)[i] == anthropic::wire_message(messages[i]));
}

/// A message that is no tool's result keeps its role.
pub proof fn law_roles_are_sent(
    config: ConfigView,
    messages: Seq<MessageView>,
    tools: Seq<Tree>,
    i: int,
)
    requires
        0 <= i < messages.len(),
        messages[i].role != "tool"@,
    ensures
        anthropic::wire_body(config, messages, tools).items_at("messages"@) matches Some(sent)
            && sent[i].text_at("role"@) == Some(messages[i].role),
{
    broadcast use json::lemma_key_set;

    lemma_messages_body(config, messages, tools);
    lemma_block_keys();
    assert(anthropic::wire_messages(messages)[i] == anthropic::wire_message(messages[i]));
}

/// The text of a message without blocks and calls is sent word for word.
pub proof fn law_plain_texts_are_sent(
    config: ConfigView,
    messages: Seq<MessageView>,
    tools: Seq<Tree>,
    i: int,
)
    requires
        0 <= i < messages.len(),
        messages[i].role != "tool"@,
        messages[i].content_blocks.len() == 0,
        messages[i].tool_calls.len() == 0 || messages[i].role != "assistant"@,
    ensures
        anthropic::wire_body(config, messages, tools).items_at("messages"@) matches Some(sent)
            && sent[i].text_at("content"@) == Some(messages[i].content),
{
    broadcast use json::lemma_key_set;

    lemma_messages_body(config, messages, tools);
    lemma_block_keys();
    assert(anthropic::wire_messages(messages)[i] == anthropic::wire_message(messages[i]));
}

/// How many blocks the text of a message takes up among its blocks.
pub open spec fn text_places(m: MessageView) -> int {
    if m.content.len() == 0 {
        0
    } else {
        1
    }
}

/// An assistant's calls follow its text and its blocks, one block each in their
/// order, with the id, the name and the arguments of that very call: as a value
/// where the arguments are JSON, else as the text that they are.
pub proof fn law_tool_calls_are_sent(
    config: ConfigView,
    messages: Seq<MessageView>,
    tools: Seq<Tree>,
    i: int,
    k: int,
)
    requires
        0 <= i < messages.len(),
        messages[i].role == "assistant"@,
        0 <= k < messages[i].tool_calls.len(),
    ensures
        anthropic::wire_body(config, messages, tools).items_at("messages"@) matches Some(sent)
            && sent[i].text_at("role"@) == Some("assistant"@) && (sent[i].items_at(
            "content"@,
        ) matches Some(blocks) && blocks.len() == text_places(messages[i])
            + messages[i].content_blocks.len() + messages[i].tool_calls.len() && ({
            let block = blocks[text_places(messages[i]) + messages[i].content_blocks.len() + k];
            let call = messages[i].tool_calls[k];
            &&& block.text_at("type"@) == Some("tool_use"@)
            &&& block.text_at("id"@) == Some(call.id)
            &&& block.text_at("name"@) == Some(call.name)
            &&& block.get("input"@) == Some(
                match json::parsed(call.arguments) {
                    Ok(value) => value,
                    Err(_) => Tree::Text(call.arguments),
                },
            )
        })),
{
    broadcast use json::lemma_key_set;

    lemma_messages_body(config, messages, tools);
    lemma_block_keys();
    reveal_strlit("tool");
    reveal_strlit("assistant");
    assert("tool"@.len() != "assistant"@.len());
    let m = messages[i];
    assert(anthropic::wire_messages(messages)[i] == anthropic::wire_message(m));
    let uses = anthropic::tool_uses(m.tool_calls);
    let values = content::anthropic_values(m);
    assert((values + uses)[values.len() + k] == uses[k]);
}

/// The blocks that an item of a body's messages holds; none where it holds a text.
pub open spec fn blocks_of(item: Tree) -> Seq<Tree> {
    match item.items_at("content"@) {
        Some(blocks) => blocks,
        None => Seq::empty(),
    }
}

/// Whether a message is sent as blocks for what it says, not for what it answers.
pub open spec fn says_in_blocks(m: MessageView) -> bool {
    m.role != "tool"@ && (m.content_blocks.len() > 0 || (m.role == "assistant"@
        && m.tool_calls.len() > 0))
}

/// The text of a message that is sent as blocks comes first, word for word, where
/// there is any.
pub proof fn law_leading_texts_are_sent(
    config: ConfigView,
    messages: Seq<MessageView>,
    tools: Seq<Tree>,
    i: int,
)
    requires
        0 <= i < messages.len(),
        says_in_blocks(messages[i]),
    ensures
        anthropic::wire_body(config, messages, tools).items_at("messages"@) matches Some(sent)
            && blocks_of(sent[i]).len() >= text_places(messages[i])
            + messages[i].content_blocks.len() && (messages[i].content.len() > 0 ==> blocks_of(
            sent[i],
        )[0].text_at("type"@) == Some("text"@) && blocks_of(sent[i])[0].text_at("text"@) == Some(
            messages[i].content,
        )),
{
    broadcast use json::lemma_key_set;

    lemma_messages_body(config, messages, tools);
    lemma_block_keys();
    let m = messages[i];
    assert(anthropic::wire_messages(messages)[i] == anthropic::wire_message(m));
    if m.content.len() > 0 {
        assert(content::anthropic_values(m)[0] == content::text_block(m.content));
    }
}

/// A block of text, and an image whose media type and payload are sound, are sent
/// with what they hold, each at its place behind the message's text.
pub proof fn law_blocks_are_sent(
    config: ConfigView,
    messages: Seq<MessageView>,
    tools: Seq<Tree>,
    i: int,
    k: int,
)
    requires
        0 <= i < messages.len(),
        says_in_blocks(messages[i]),
        0 <= k < messages[i].content_blocks.len(),
    ensures
        anthropic::wire_body(config, messages, tools).items_at("messages"@) matches Some(sent) && ({
            let block = blocks_of(sent[i])[text_places(messages[i]) + k];
            match messages[i].content_blocks[k] {
                BlockView::Text(t) => block.text_at("type"@) == Some("text"@) && block.text_at(
                    "text"@,
                ) == Some(t),
                BlockView::Image { media_type, data } => content::normal_data(
                    media_type,
                    data,
                ) matches Ok((kind, payload)) ==> block.text_at("type"@) == Some("image"@)
                    && json::under(block, "source"@, "type"@) == Some(Tree::Text("base64"@))
                    && json::under(block, "source"@, "media_type"@) == Some(Tree::Text(kind))
                    && json::under(block, "source"@, "data"@) == Some(Tree::Text(payload)),
                _ => block.text_at("type"@) == Some("text"@),
            }
        }),
{
    broadcast use json::lemma_key_set;

    lemma_messages_body(config, messages, tools);
    lemma_block_keys();
    let m = messages[i];
    assert(anthropic::wire_messages(messages)[i] == anthropic::wire_message(m));
    assert(content::anthropic_values(m)[text_places(m) + k] == content::anthropic_block(
        content::request_block(m.content_blocks[k]),
    ));
}

/// Two histories that differ in what a tool answered, or in whom it answered, are
/// never sent as the same body.
pub proof fn law_other_results_make_another_body(
    config: ConfigView,
    a: Seq<MessageView>,
    b: Seq<MessageView>,
    tools: Seq<Tree>,
    i: int,
)
    requires
        0 <= i < a.len(),
        a[i].role == "tool"@,
        i < b.len() ==> b[i].role == "tool"@ && (a[i].content != b[i].content
            || a[i].tool_call_id != b[i].tool_call_id),
    ensures
        anthropic::wire_body(config, a, tools) != anthropic::wire_body(config, b, tools),
{
    law_tool_results_are_sent(config, a, tools, i);
    law_every_message_has_its_place(config, a, tools);
    law_every_message_has_its_place(config, b, tools);
    if i < b.len() {
        law_tool_results_are_sent(config, b, tools, i);
    }
}

} // verus!
