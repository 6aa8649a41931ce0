//! What a provider can read from the body of a chat request: every message, every
//! tool call with its arguments, every result, the rules and the tools, each at its
//! place.
use vstd::prelude::*;
use vstd::string::*;

use crate::json;
use crate::json::Tree;
use crate::provider::config::{ConfigView, NATIVE_SYSTEM_PROMPT};
use crate::provider::content;
use crate::provider::message::{BlockView, MessageView};
use crate::provider::openai;
use crate::text;

verus! {

/// The keys of a body are told apart.
proof fn lemma_body_keys()
    ensures
        "model"@ != "messages"@,
        "model"@ != "max_tokens"@,
        "model"@ != "stream"@,
        "model"@ != "max_completion_tokens"@,
        "model"@ != "stream_options"@,
        "model"@ != "verbosity"@,
        "model"@ != "thinking"@,
        "model"@ != "reasoning_effort"@,
        "model"@ != "tools"@,
        "model"@ != "prompt_cache_key"@,
        "messages"@ != "max_tokens"@,
        "messages"@ != "stream"@,
        "messages"@ != "max_completion_tokens"@,
        "messages"@ != "stream_options"@,
        "messages"@ != "verbosity"@,
        "messages"@ != "thinking"@,
        "messages"@ != "reasoning_effort"@,
        "messages"@ != "tools"@,
        "messages"@ != "prompt_cache_key"@,
        "max_tokens"@ != "stream"@,
        "max_tokens"@ != "max_completion_tokens"@,
        "max_tokens"@ != "stream_options"@,
        "max_tokens"@ != "verbosity"@,
        "max_tokens"@ != "thinking"@,
        "max_tokens"@ != "reasoning_effort"@,
        "max_tokens"@ != "tools"@,
        "max_tokens"@ != "prompt_cache_key"@,
        "stream"@ != "max_completion_tokens"@,
        "stream"@ != "stream_options"@,
        "stream"@ != "verbosity"@,
        "stream"@ != "thinking"@,
        "stream"@ != "reasoning_effort"@,
        "stream"@ != "tools"@,
        "stream"@ != "prompt_cache_key"@,
        "max_completion_tokens"@ != "stream_options"@,
        "max_completion_tokens"@ != "verbosity"@,
        "max_completion_tokens"@ != "thinking"@,
        "max_completion_tokens"@ != "reasoning_effort"@,
        "max_completion_tokens"@ != "tools"@,
        "max_completion_tokens"@ != "prompt_cache_key"@,
        "stream_options"@ != "verbosity"@,
        "stream_options"@ != "thinking"@,
        "stream_options"@ != "reasoning_effort"@,
        "stream_options"@ != "tools"@,
        "stream_options"@ != "prompt_cache_key"@,
        "verbosity"@ != "thinking"@,
        "verbosity"@ != "reasoning_effort"@,
        "verbosity"@ != "tools"@,
        "verbosity"@ != "prompt_cache_key"@,
        "thinking"@ != "reasoning_effort"@,
        "thinking"@ != "tools"@,
        "thinking"@ != "prompt_cache_key"@,
        "reasoning_effort"@ != "tools"@,
        "reasoning_effort"@ != "prompt_cache_key"@,
        "tools"@ != "prompt_cache_key"@,
{
    reveal_strlit("model");
    reveal_strlit("messages");
    reveal_strlit("max_tokens");
    reveal_strlit("stream");
    reveal_strlit("max_completion_tokens");
    reveal_strlit("stream_options");
    reveal_strlit("verbosity");
    reveal_strlit("thinking");
    reveal_strlit("reasoning_effort");
    reveal_strlit("tools");
    reveal_strlit("prompt_cache_key");
    assert("model"@.len() != "messages"@.len());
    assert("model"@.len() != "max_tokens"@.len());
    assert("model"@.len() != "stream"@.len());
    assert("model"@.len() != "max_completion_tokens"@.len());
    assert("model"@.len() != "stream_options"@.len());
    assert("model"@.len() != "verbosity"@.len());
    assert("model"@.len() != "thinking"@.len());
    assert("model"@.len() != "reasoning_effort"@.len());
    assert("model"@[0] != "tools"@[0]);
    assert("model"@.len() != "prompt_cache_key"@.len());
    assert("messages"@.len() != "max_tokens"@.len());
    assert("messages"@.len() != "stream"@.len());
    assert("messages"@.len() != "max_completion_tokens"@.len());
    assert("messages"@.len() != "stream_options"@.len());
    assert("messages"@.len() != "verbosity"@.len());
    assert("messages"@[0] != "thinking"@[0]);
    assert("messages"@.len() != "reasoning_effort"@.len());
    assert("messages"@.len() != "tools"@.len());
    assert("messages"@.len() != "prompt_cache_key"@.len());
    assert("max_tokens"@.len() != "stream"@.len());
    assert("max_tokens"@.len() != "max_completion_tokens"@.len());
    assert("max_tokens"@.len() != "stream_options"@.len());
    assert("max_tokens"@.len() != "verbosity"@.len());
    assert("max_tokens"@.len() != "thinking"@.len());
    assert("max_tokens"@.len() != "reasoning_effort"@.len());
    assert("max_tokens"@.len() != "tools"@.len());
    assert("max_tokens"@.len() != "prompt_cache_key"@.len());
    assert("stream"@.len() != "max_completion_tokens"@.len());
    assert("stream"@.len() != "stream_options"@.len());
    assert("stream"@.len() != "verbosity"@.len());
    assert("stream"@.len() != "thinking"@.len());
    assert("stream"@.len() != "reasoning_effort"@.len());
    assert("stream"@.len() != "tools"@.len());
    assert("stream"@.len() != "prompt_cache_key"@.len());
    assert("max_completion_tokens"@.len() != "stream_options"@.len());
    assert("max_completion_tokens"@.len() != "verbosity"@.len());
    assert("max_completion_tokens"@.len() != "thinking"@.len());
    assert("max_completion_tokens"@.len() != "reasoning_effort"@.len());
    assert("max_completion_tokens"@.len() != "tools"@.len());
    assert("max_completion_tokens"@.len() != "prompt_cache_key"@.len());
    assert("stream_options"@.len() != "verbosity"@.len());
    assert("stream_options"@.len() != "thinking"@.len());
    assert("stream_options"@.len() != "reasoning_effort"@.len());
    assert("stream_options"@.len() != "tools"@.len());
    assert("stream_options"@.len() != "prompt_cache_key"@.len());
    assert("verbosity"@.len() != "thinking"@.len());
    assert("verbosity"@.len() != "reasoning_effort"@.len());
    assert("verbosity"@.len() != "tools"@.len());
    assert("verbosity"@.len() != "prompt_cache_key"@.len());
    assert("thinking"@.len() != "reasoning_effort"@.len());
    assert("thinking"@.len() != "tools"@.len());
    assert("thinking"@.len() != "prompt_cache_key"@.len());
    assert("reasoning_effort"@.len() != "tools"@.len());
    assert("reasoning_effort"@[0] != "prompt_cache_key"@[0]);
    assert("tools"@.len() != "prompt_cache_key"@.len());
}
/// The keys of a message, a call, a tool and a block are told apart.
proof fn lemma_message_keys()
    ensures
        "role"@ != "content"@,
        "role"@ != "reasoning_content"@,
        "role"@ != "name"@,
        "role"@ != "tool_call_id"@,
        "role"@ != "tool_calls"@,
        "role"@ != "type"@,
        "role"@ != "id"@,
        "role"@ != "function"@,
        "role"@ != "arguments"@,
        "role"@ != "description"@,
        "role"@ != "parameters"@,
        "role"@ != "text"@,
        "role"@ != "image_url"@,
        "role"@ != "url"@,
        "role"@ != "input_audio"@,
        "role"@ != "format"@,
        "role"@ != "data"@,
        "content"@ != "reasoning_content"@,
        "content"@ != "name"@,
        "content"@ != "tool_call_id"@,
        "content"@ != "tool_calls"@,
        "content"@ != "type"@,
        "content"@ != "id"@,
        "content"@ != "function"@,
        "content"@ != "arguments"@,
        "content"@ != "description"@,
        "content"@ != "parameters"@,
        "content"@ != "text"@,
        "content"@ != "image_url"@,
        "content"@ != "url"@,
        "content"@ != "input_audio"@,
        "content"@ != "format"@,
        "content"@ != "data"@,
        "reasoning_content"@ != "name"@,
        "reasoning_content"@ != "tool_call_id"@,
        "reasoning_content"@ != "tool_calls"@,
        "reasoning_content"@ != "type"@,
        "reasoning_content"@ != "id"@,
        "reasoning_content"@ != "function"@,
        "reasoning_content"@ != "arguments"@,
        "reasoning_content"@ != "description"@,
        "reasoning_content"@ != "parameters"@,
        "reasoning_content"@ != "text"@,
        "reasoning_content"@ != "image_url"@,
        "reasoning_content"@ != "url"@,
        "reasoning_content"@ != "input_audio"@,
        "reasoning_content"@ != "format"@,
        "reasoning_content"@ != "data"@,
        "name"@ != "tool_call_id"@,
        "name"@ != "tool_calls"@,
        "name"@ != "type"@,
        "name"@ != "id"@,
        "name"@ != "function"@,
        "name"@ != "arguments"@,
        "name"@ != "description"@,
        "name"@ != "parameters"@,
        "name"@ != "text"@,
        "name"@ != "image_url"@,
        "name"@ != "url"@,
        "name"@ != "input_audio"@,
        "name"@ != "format"@,
        "name"@ != "data"@,
        "tool_call_id"@ != "tool_calls"@,
        "tool_call_id"@ != "type"@,
        "tool_call_id"@ != "id"@,
        "tool_call_id"@ != "function"@,
        "tool_call_id"@ != "arguments"@,
        "tool_call_id"@ != "description"@,
        "tool_call_id"@ != "parameters"@,
        "tool_call_id"@ != "text"@,
        "tool_call_id"@ != "image_url"@,
        "tool_call_id"@ != "url"@,
        "tool_call_id"@ != "input_audio"@,
        "tool_call_id"@ != "format"@,
        "tool_call_id"@ != "data"@,
        "tool_calls"@ != "type"@,
        "tool_calls"@ != "id"@,
        "tool_calls"@ != "function"@,
        "tool_calls"@ != "arguments"@,
        "tool_calls"@ != "description"@,
        "tool_calls"@ != "parameters"@,
        "tool_calls"@ != "text"@,
        "tool_calls"@ != "image_url"@,
        "tool_calls"@ != "url"@,
        "tool_calls"@ != "input_audio"@,
        "tool_calls"@ != "format"@,
        "tool_calls"@ != "data"@,
        "type"@ != "id"@,
        "type"@ != "function"@,
        "type"@ != "arguments"@,
        "type"@ != "description"@,
        "type"@ != "parameters"@,
        "type"@ != "text"@,
        "type"@ != "image_url"@,
        "type"@ != "url"@,
        "type"@ != "input_audio"@,
        "type"@ != "format"@,
        "type"@ != "data"@,
        "id"@ != "function"@,
        "id"@ != "arguments"@,
        "id"@ != "description"@,
        "id"@ != "parameters"@,
        "id"@ != "text"@,
        "id"@ != "image_url"@,
        "id"@ != "url"@,
        "id"@ != "input_audio"@,
        "id"@ != "format"@,
        "id"@ != "data"@,
        "function"@ != "arguments"@,
        "function"@ != "description"@,
        "function"@ != "parameters"@,
        "function"@ != "text"@,
        "function"@ != "image_url"@,
        "function"@ != "url"@,
        "function"@ != "input_audio"@,
        "function"@ != "format"@,
        "function"@ != "data"@,
        "arguments"@ != "description"@,
        "arguments"@ != "parameters"@,
        "arguments"@ != "text"@,
        "arguments"@ != "image_url"@,
        "arguments"@ != "url"@,
        "arguments"@ != "input_audio"@,
        "arguments"@ != "format"@,
        "arguments"@ != "data"@,
        "description"@ != "parameters"@,
        "description"@ != "text"@,
        "description"@ != "image_url"@,
        "description"@ != "url"@,
        "description"@ != "input_audio"@,
        "description"@ != "format"@,
        "description"@ != "data"@,
        "parameters"@ != "text"@,
        "parameters"@ != "image_url"@,
        "parameters"@ != "url"@,
        "parameters"@ != "input_audio"@,
        "parameters"@ != "format"@,
        "parameters"@ != "data"@,
        "text"@ != "image_url"@,
        "text"@ != "url"@,
        "text"@ != "input_audio"@,
        "text"@ != "format"@,
        "text"@ != "data"@,
        "image_url"@ != "url"@,
        "image_url"@ != "input_audio"@,
        "image_url"@ != "format"@,
        "image_url"@ != "data"@,
        "url"@ != "input_audio"@,
        "url"@ != "format"@,
        "url"@ != "data"@,
        "input_audio"@ != "format"@,
        "input_audio"@ != "data"@,
        "format"@ != "data"@,
{
    reveal_strlit("role");
    reveal_strlit("content");
    reveal_strlit("reasoning_content");
    reveal_strlit("name");
    reveal_strlit("tool_call_id");
    reveal_strlit("tool_calls");
    reveal_strlit("type");
    reveal_strlit("id");
    reveal_strlit("function");
    reveal_strlit("arguments");
    reveal_strlit("description");
    reveal_strlit("parameters");
    reveal_strlit("text");
    reveal_strlit("image_url");
    reveal_strlit("url");
    reveal_strlit("input_audio");
    reveal_strlit("format");
    reveal_strlit("data");
    assert("role"@.len() != "content"@.len());
    assert("role"@.len() != "reasoning_content"@.len());
    assert("role"@[0] != "name"@[0]);
    assert("role"@.len() != "tool_call_id"@.len());
    assert("role"@.len() != "tool_calls"@.len());
    assert("role"@[0] != "type"@[0]);
    assert("role"@.len() != "id"@.len());
    assert("role"@.len() != "function"@.len());
    assert("role"@.len() != "arguments"@.len());
    assert("role"@.len() != "description"@.len());
    assert("role"@.len() != "parameters"@.len());
    assert("role"@[0] != "text"@[0]);
    assert("role"@.len() != "image_url"@.len());
    assert("role"@.len() != "url"@.len());
    assert("role"@.len() != "input_audio"@.len());
    assert("role"@.len() != "format"@.len());
    assert("role"@[0] != "data"@[0]);
    assert("content"@.len() != "reasoning_content"@.len());
    assert("content"@.len() != "name"@.len());
    assert("content"@.len() != "tool_call_id"@.len());
    assert("content"@.len() != "tool_calls"@.len());
    assert("content"@.len() != "type"@.len());
    assert("content"@.len() != "id"@.len());
    assert("content"@.len() != "function"@.len());
    assert("content"@.len() != "arguments"@.len());
    assert("content"@.len() != "description"@.len());
    assert("content"@.len() != "parameters"@.len());
    assert("content"@.len() != "text"@.len());
    assert("content"@.len() != "image_url"@.len());
    assert("content"@.len() != "url"@.len());
    assert("content"@.len() != "input_audio"@.len());
    assert("content"@.len() != "format"@.len());
    assert("content"@.len() != "data"@.len());
    assert("reasoning_content"@.len() != "name"@.len());
    assert("reasoning_content"@.len() != "tool_call_id"@.len());
    assert("reasoning_content"@.len() != "tool_calls"@.len());
    assert("reasoning_content"@.len() != "type"@.len());
    assert("reasoning_content"@.len() != "id"@.len());
    assert("reasoning_content"@.len() != "function"@.len());
    assert("reasoning_content"@.len() != "arguments"@.len());
    assert("reasoning_content"@.len() != "description"@.len());
    assert("reasoning_content"@.len() != "parameters"@.len());
    assert("reasoning_content"@.len() != "text"@.len());
    assert("reasoning_content"@.len() != "image_url"@.len());
    assert("reasoning_content"@.len() != "url"@.len());
    assert("reasoning_content"@.len() != "input_audio"@.len());
    assert("reasoning_content"@.len() != "format"@.len());
    assert("reasoning_content"@.len() != "data"@.len());
    assert("name"@.len() != "tool_call_id"@.len());
    assert("name"@.len() != "tool_calls"@.len());
    assert("name"@[0] != "type"@[0]);
    assert("name"@.len() != "id"@.len());
    assert("name"@.len() != "function"@.len());
    assert("name"@.len() != "arguments"@.len());
    assert("name"@.len() != "description"@.len());
    assert("name"@.len() != "parameters"@.len());
    assert("name"@[0] != "text"@[0]);
    assert("name"@.len() != "image_url"@.len());
    assert("name"@.len() != "url"@.len());
    assert("name"@.len() != "input_audio"@.len());
    assert("name"@.len() != "format"@.len());
    assert("name"@[0] != "data"@[0]);
    assert("tool_call_id"@.len() != "tool_calls"@.len());
    assert("tool_call_id"@.len() != "type"@.len());
    assert("tool_call_id"@.len() != "id"@.len());
    assert("tool_call_id"@.len() != "function"@.len());
    assert("tool_call_id"@.len() != "arguments"@.len());
    assert("tool_call_id"@.len() != "description"@.len());
    assert("tool_call_id"@.len() != "parameters"@.len());
    assert("tool_call_id"@.len() != "text"@.len());
    assert("tool_call_id"@.len() != "image_url"@.len());
    assert("tool_call_id"@.len() != "url"@.len());
    assert("tool_call_id"@.len() != "input_audio"@.len());
    assert("tool_call_id"@.len() != "format"@.len());
    assert("tool_call_id"@.len() != "data"@.len());
    assert("tool_calls"@.len() != "type"@.len());
    assert("tool_calls"@.len() != "id"@.len());
    assert("tool_calls"@.len() != "function"@.len());
    assert("tool_calls"@.len() != "arguments"@.len());
    assert("tool_calls"@.len() != "description"@.len());
    assert("tool_calls"@[0] != "parameters"@[0]);
    assert("tool_calls"@.len() != "text"@.len());
    assert("tool_calls"@.len() != "image_url"@.len());
    assert("tool_calls"@.len() != "url"@.len());
    assert("tool_calls"@.len() != "input_audio"@.len());
    assert("tool_calls"@.len() != "format"@.len());
    assert("tool_calls"@.len() != "data"@.len());
    assert("type"@.len() != "id"@.len());
    assert("type"@.len() != "function"@.len());
    assert("type"@.len() != "arguments"@.len());
    assert("type"@.len() != "description"@.len());
    assert("type"@.len() != "parameters"@.len());
    assert("type"@[1] != "text"@[1]);
    assert("type"@.len() != "image_url"@.len());
    assert("type"@.len() != "url"@.len());
    assert("type"@.len() != "input_audio"@.len());
    assert("type"@.len() != "format"@.len());
    assert("type"@[0] != "data"@[0]);
    assert("id"@.len() != "function"@.len());
    assert("id"@.len() != "arguments"@.len());
    assert("id"@.len() != "description"@.len());
    assert("id"@.len() != "parameters"@.len());
    assert("id"@.len() != "text"@.len());
    assert("id"@.len() != "image_url"@.len());
    assert("id"@.len() != "url"@.len());
    assert("id"@.len() != "input_audio"@.len());
    assert("id"@.len() != "format"@.len());
    assert("id"@.len() != "data"@.len());
    assert("function"@.len() != "arguments"@.len());
    assert("function"@.len() != "description"@.len());
    assert("function"@.len() != "parameters"@.len());
    assert("function"@.len() != "text"@.len());
    assert("function"@.len() != "image_url"@.len());
    assert("function"@.len() != "url"@.len());
    assert("function"@.len() != "input_audio"@.len());
    assert("function"@.len() != "format"@.len());
    assert("function"@.len() != "data"@.len());
    assert("arguments"@.len() != "description"@.len());
    assert("arguments"@.len() != "parameters"@.len());
    assert("arguments"@.len() != "text"@.len());
    assert("arguments"@[0] != "image_url"@[0]);
    assert("arguments"@.len() != "url"@.len());
    assert("arguments"@.len() != "input_audio"@.len());
    assert("arguments"@.len() != "format"@.len());
    assert("arguments"@.len() != "data"@.len());
    assert("description"@.len() != "parameters"@.len());
    assert("description"@.len() != "text"@.len());
    assert("description"@.len() != "image_url"@.len());
    assert("description"@.len() != "url"@.len());
    assert("description"@[0] != "input_audio"@[0]);
    assert("description"@.len() != "format"@.len());
    assert("description"@.len() != "data"@.len());
    assert("parameters"@.len() != "text"@.len());
    assert("parameters"@.len() != "image_url"@.len());
    assert("parameters"@.len() != "url"@.len());
    assert("parameters"@.len() != "input_audio"@.len());
    assert("parameters"@.len() != "format"@.len());
    assert("parameters"@.len() != "data"@.len());
    assert("text"@.len() != "image_url"@.len());
    assert("text"@.len() != "url"@.len());
    assert("text"@.len() != "input_audio"@.len());
    assert("text"@.len() != "format"@.len());
    assert("text"@[0] != "data"@[0]);
    assert("image_url"@.len() != "url"@.len());
    assert("image_url"@.len() != "input_audio"@.len());
    assert("image_url"@.len() != "format"@.len());
    assert("image_url"@.len() != "data"@.len());
    assert("url"@.len() != "input_audio"@.len());
    assert("url"@.len() != "format"@.len());
    assert("url"@.len() != "data"@.len());
    assert("input_audio"@.len() != "format"@.len());
    assert("input_audio"@.len() != "data"@.len());
    assert("format"@.len() != "data"@.len());
}
/// What a body holds whatever its limits and options are.
proof fn lemma_chat_body(
    config: ConfigView,
    messages: Seq<MessageView>,
    tools: Seq<Tree>,
    at_openai: bool,
    terse: bool,
)
    ensures
        openai::chat_body(config, messages, tools, at_openai, terse) is Object,
        openai::chat_body(config, messages, tools, at_openai, terse).get("model"@) == Some(
            Tree::Text(config.model),
        ),
        openai::chat_body(config, messages, tools, at_openai, terse).get("stream"@) == Some(
            Tree::Bool(true),
        ),
        openai::chat_body(config, messages, tools, at_openai, terse).get("messages"@) == Some(
            Tree::Array(openai::chat_messages(messages, config)),
        ),
        openai::chat_body(config, messages, tools, at_openai, terse).get("tools"@) == (if tools.len()
            == 0 {
            None
        } else {
            Some(Tree::Array(openai::tool_trees(tools)))
        }),
{
    broadcast use {json::lemma_key_set, json::lemma_key_removed};

    lemma_body_keys();
}

/// The model, the wish for a stream and the limit stand in the body as they were
/// configured: the limit under the one key that the endpoint reads, and under no
/// other. OpenAI itself is asked to report its usage.
pub proof fn law_a_chat_request_says_what_was_configured(
    config: ConfigView,
    messages: Seq<MessageView>,
    tools: Seq<Tree>,
    at_openai: bool,
    terse: bool,
)
    ensures
        openai::chat_body(config, messages, tools, at_openai, terse).text_at("model"@) == Some(
            config.model,
        ),
        openai::chat_body(config, messages, tools, at_openai, terse).get("stream"@) == Some(
            Tree::Bool(true),
        ),
        at_openai ==> openai::chat_body(config, messages, tools, at_openai, terse).unsigned_at(
            "max_completion_tokens"@,
        ) == Some(config.settings.max_output_tokens as u64) && openai::chat_body(
            config,
            messages,
            tools,
            at_openai,
            terse,
        ).get("max_tokens"@) is None && json::under(
            openai::chat_body(config, messages, tools, at_openai, terse),
            "stream_options"@,
            "include_usage"@,
        ) == Some(Tree::Bool(true)),
        !at_openai ==> openai::chat_body(config, messages, tools, at_openai, terse).unsigned_at(
            "max_tokens"@,
        ) == Some(config.settings.max_output_tokens as u64) && openai::chat_body(
            config,
            messages,
            tools,
            at_openai,
            terse,
        ).get("max_completion_tokens"@) is None,
        openai::chat_body(config, messages, tools, at_openai, terse).text_at("verbosity"@) == (if at_openai
            && terse {
            Some("low"@)
        } else {
            None
        }),
{
    broadcast use {json::lemma_key_set, json::lemma_key_removed};

    lemma_body_keys();
    lemma_chat_body(config, messages, tools, at_openai, terse);
    json::lemma_decimal_value(config.settings.max_output_tokens as nat);
}

/// How many messages the rules take up: one, unless they are empty.
pub open spec fn rules_places(config: ConfigView) -> int {
    match config.settings.prompt {
        Some(prompt) => if prompt.len() == 0 {
            0
        } else {
            1
        },
        None => 1,
    }
}

/// The rules come first, word for word: those of the configuration, else the
/// library's own. Then comes every message, and nothing else.
pub proof fn law_the_rules_come_first(
    config: ConfigView,
    messages: Seq<MessageView>,
    tools: Seq<Tree>,
    at_openai: bool,
    terse: bool,
)
    ensures
        openai::chat_body(config, messages, tools, at_openai, terse).items_at(
            "messages"@,
        ) matches Some(sent) && sent.len() == rules_places(config) + messages.len() && (
        rules_places(config) == 1 ==> sent[0].text_at("role"@) == Some("system"@)
            && sent[0].text_at("content"@) == Some(
            match config.settings.prompt {
                Some(prompt) => prompt,
                None => NATIVE_SYSTEM_PROMPT@,
            },
        )),
{
    broadcast use json::lemma_key_set;

    lemma_chat_body(config, messages, tools, at_openai, terse);
    lemma_message_keys();
}

/// The item of a message among those of a body.
proof fn lemma_item(config: ConfigView, messages: Seq<MessageView>, i: int)
    requires
        0 <= i < messages.len(),
    ensures
        openai::chat_messages(messages, config)[rules_places(config) + i] == openai::chat_message(
            messages[i],
            config,
        ),
{
    let history = messages.map_values(|m: MessageView| openai::chat_message(m, config));
    assert(history[i] == openai::chat_message(messages[i], config));
}

/// Every message keeps its role, its name and the id of the call that it answers,
/// and where it has no blocks its text is sent word for word.
pub proof fn law_chat_messages_are_sent(
    config: ConfigView,
    messages: Seq<MessageView>,
    tools: Seq<Tree>,
    at_openai: bool,
    terse: bool,
    i: int,
)
    requires
        0 <= i < messages.len(),
    ensures
        openai::chat_body(config, messages, tools, at_openai, terse).items_at(
            "messages"@,
        ) matches Some(sent) && ({
            let item = sent[rules_places(config) + i];
            &&& item.text_at("role"@) == Some(messages[i].role)
            &&& item.text_at("name"@) == messages[i].name
            &&& item.text_at("tool_call_id"@) == messages[i].tool_call_id
            &&& messages[i].content_blocks.len() == 0 ==> item.text_at("content"@) == Some(
                messages[i].content,
            )
        }),
{
    broadcast use json::lemma_key_set;

    lemma_chat_body(config, messages, tools, at_openai, terse);
    lemma_message_keys();
    lemma_item(config, messages, i);
}

/// The calls of a message are sent in their order, each with its id, its name and
/// its arguments word for word; a message without calls has none.
pub proof fn law_chat_calls_are_sent(
    config: ConfigView,
    messages: Seq<MessageView>,
    tools: Seq<Tree>,
    at_openai: bool,
    terse: bool,
    i: int,
)
    requires
        0 <= i < messages.len(),
    ensures
        openai::chat_body(config, messages, tools, at_openai, terse).items_at(
            "messages"@,
        ) matches Some(sent) && ({
            let item = sent[rules_places(config) + i];
            &&& messages[i].tool_calls.len() == 0 ==> item.get("tool_calls"@) is None
            &&& messages[i].tool_calls.len() > 0 ==> (item.items_at("tool_calls"@) matches Some(
                calls,
            ) && calls.len() == messages[i].tool_calls.len() && forall|k: int|
                0 <= k < calls.len() ==> {
                    &&& (#[trigger] calls[k]).text_at("id"@) == Some(messages[i].tool_calls[k].id)
                    &&& calls[k].text_at("type"@) == Some("function"@)
                    &&& json::under(calls[k], "function"@, "name"@) == Some(
                        Tree::Text(messages[i].tool_calls[k].name),
                    )
                    &&& json::under(calls[k], "function"@, "arguments"@) == Some(
                        Tree::Text(messages[i].tool_calls[k].arguments),
                    )
                })
        }),
{
    broadcast use json::lemma_key_set;

    lemma_chat_body(config, messages, tools, at_openai, terse);
    lemma_message_keys();
    lemma_item(config, messages, i);
    let calls = openai::call_trees(messages[i].tool_calls);
    assert forall|k: int| 0 <= k < calls.len() implies #[trigger] calls[k] == openai::call_tree(
        messages[i].tool_calls[k],
    ) by {}
}

/// How many blocks the text of a message takes up among its blocks.
pub open spec fn text_places(m: MessageView) -> int {
    if m.content.len() == 0 {
        0
    } else {
        1
    }
}

/// A message with blocks is sent as blocks: first its text, where there is any,
/// then one block for each of its own. A block of text, and an image or a sound
/// whose media type and payload are sound, are sent with what they hold.
pub proof fn law_chat_blocks_are_sent(
    config: ConfigView,
    messages: Seq<MessageView>,
    tools: Seq<Tree>,
    at_openai: bool,
    terse: bool,
    i: int,
    k: int,
)
    requires
        0 <= i < messages.len(),
        0 <= k < messages[i].content_blocks.len(),
    ensures
        openai::chat_body(config, messages, tools, at_openai, terse).items_at(
            "messages"@,
        ) matches Some(sent) && (sent[rules_places(config) + i].items_at(
            "content"@,
        ) matches Some(blocks) && blocks.len() == text_places(messages[i])
            + messages[i].content_blocks.len() && ({
            let block = blocks[text_places(messages[i]) + k];
            &&& messages[i].content.len() > 0 ==> blocks[0].text_at("type"@) == Some("text"@)
                && blocks[0].text_at("text"@) == Some(messages[i].content)
            &&& match messages[i].content_blocks[k] {
                BlockView::Text(t) => block.text_at("type"@) == Some("text"@) && block.text_at(
                    "text"@,
                ) == Some(t),
                BlockView::Image { media_type, data } => content::normal_data(
                    media_type,
                    data,
                ) matches Ok((kind, payload)) ==> block.text_at("type"@) == Some("image_url"@)
                    && json::under(block, "image_url"@, "url"@) == Some(
                    Tree::Text("data:"@ + kind + ";base64,"@ + payload),
                ),
                BlockView::Audio { media_type, data } => content::normal_data(
                    media_type,
                    data,
                ) matches Ok((_, payload)) ==> block.text_at("type"@) == Some("input_audio"@)
                    && json::under(block, "input_audio"@, "data"@) == Some(Tree::Text(payload)),
                _ => block.text_at("type"@) == Some("text"@),
            }
        })),
{
    broadcast use json::lemma_key_set;

    lemma_chat_body(config, messages, tools, at_openai, terse);
    lemma_message_keys();
    lemma_item(config, messages, i);
    let m = messages[i];
    let blocks = content::leading_text(m.content) + content::openai_blocks(m.content_blocks);
    assert(blocks[text_places(m) + k] == content::openai_block(
        content::request_block(m.content_blocks[k]),
    ));
    if m.content.len() > 0 {
        assert(blocks[0] == content::text_block(m.content));
    }
}

/// An assistant's thinking is handed back word for word to the model that thought
/// it, where that model wants it back.
pub proof fn law_own_thinking_is_handed_back(
    config: ConfigView,
    messages: Seq<MessageView>,
    tools: Seq<Tree>,
    at_openai: bool,
    terse: bool,
    i: int,
)
    requires
        0 <= i < messages.len(),
    ensures
        openai::chat_body(config, messages, tools, at_openai, terse).items_at(
            "messages"@,
        ) matches Some(sent) && ({
            let item = sent[rules_places(config) + i];
            if openai::chat_thinking(config) && messages[i].role == "assistant"@ {
                match messages[i].chat_reasoning {
                    Some(state) if state.scope_id == config.settings.scope_id && state.model
                        == config.model => item.text_at("reasoning_content"@) == Some(
                        state.content,
                    ),
                    _ => item.text_at("reasoning_content"@) == Some(Seq::<char>::empty()),
                }
            } else {
                item.get("reasoning_content"@) is None
            }
        }),
{
    broadcast use json::lemma_key_set;

    lemma_chat_body(config, messages, tools, at_openai, terse);
    lemma_message_keys();
    lemma_item(config, messages, i);
}

/// Every tool is offered at its place with its name, its description and its
/// schema; only a tool without a schema is offered with that of any object.
pub proof fn law_chat_tools_are_sent(
    config: ConfigView,
    messages: Seq<MessageView>,
    tools: Seq<Tree>,
    at_openai: bool,
    terse: bool,
)
    ensures
        tools.len() == 0 ==> openai::chat_body(config, messages, tools, at_openai, terse).get(
            "tools"@,
        ) is None,
        tools.len() > 0 ==> (openai::chat_body(config, messages, tools, at_openai, terse).items_at(
            "tools"@,
        ) matches Some(sent) && sent.len() == tools.len() && forall|i: int|
            0 <= i < sent.len() ==> {
                &&& (#[trigger] sent[i]).text_at("type"@) == Some("function"@)
                &&& tools[i].get("name"@) matches Some(name) ==> json::under(
                    sent[i],
                    "function"@,
                    "name"@,
                ) == Some(name)
                &&& tools[i].get("description"@) matches Some(words) ==> json::under(
                    sent[i],
                    "function"@,
                    "description"@,
                ) == Some(words)
                &&& tools[i].get("input_schema"@) matches Some(schema) ==> json::under(
                    sent[i],
                    "function"@,
                    "parameters"@,
                ) == Some(schema)
                &&& tools[i].get("input_schema"@) is None ==> (json::under(
                    sent[i],
                    "function"@,
                    "parameters"@,
                ) matches Some(any) && any.text_at("type"@) == Some("object"@))
            }),
{
    broadcast use json::lemma_key_set;

    lemma_chat_body(config, messages, tools, at_openai, terse);
    lemma_message_keys();
    let sent = openai::tool_trees(tools);
    assert forall|i: int| 0 <= i < sent.len() implies #[trigger] sent[i] == openai::tool_tree(
        tools[i],
    ) by {}
}

/// Two histories that differ in the text of a message without blocks, in its role
/// or in a call of it are never sent as the same body.
pub proof fn law_other_messages_make_another_body(
    config: ConfigView,
    a: Seq<MessageView>,
    b: Seq<MessageView>,
    tools: Seq<Tree>,
    at_openai: bool,
    terse: bool,
    i: int,
)
    requires
        0 <= i < a.len(),
        i < b.len() ==> a[i].content_blocks.len() == 0 && b[i].content_blocks.len() == 0 && (
        a[i].content != b[i].content || a[i].role != b[i].role || a[i].tool_calls
            != b[i].tool_calls),
    ensures
        openai::chat_body(config, a, tools, at_openai, terse) != openai::chat_body(
            config,
            b,
            tools,
            at_openai,
            terse,
        ),
{
    law_the_rules_come_first(config, a, tools, at_openai, terse);
    law_the_rules_come_first(config, b, tools, at_openai, terse);
    if i < b.len() && openai::chat_body(config, a, tools, at_openai, terse) == openai::chat_body(
        config,
        b,
        tools,
        at_openai,
        terse,
    ) {
        law_chat_messages_are_sent(config, a, tools, at_openai, terse, i);
        law_chat_messages_are_sent(config, b, tools, at_openai, terse, i);
        law_chat_calls_are_sent(config, a, tools, at_openai, terse, i);
        law_chat_calls_are_sent(config, b, tools, at_openai, terse, i);
        let sent = openai::chat_body(config, a, tools, at_openai, terse).items_at(
            "messages"@,
        )->Some_0;
        let calls = sent[rules_places(config) + i].items_at("tool_calls"@);
        assert(a[i].tool_calls.len() == b[i].tool_calls.len());
        assert forall|k: int| 0 <= k < a[i].tool_calls.len() implies a[i].tool_calls[k]
            == b[i].tool_calls[k] by {
            let call = calls->Some_0[k];
        }
        assert(a[i].tool_calls =~= b[i].tool_calls);
    }
}

} // verus!
