//! Fingerprints of the history that a checkpoint sums up.
use vstd::prelude::*;
use vstd::string::*;
use vstd::utf8::encode_utf8;
use crate::hash;
use crate::json;
use crate::provider::message;
use crate::provider::message::{ProviderContentBlock, ProviderMessage, ProviderToolCall, ResponsesReasoning};
use crate::text;

verus! {

pub open spec fn opt_bytes(s: Option<Seq<char>>) -> Seq<u8> {
    match s {
        Some(t) => encode_utf8(t),
        None => Seq::empty(),
    }
}

/// The bytes that stand for the tool calls of a message.
pub open spec fn calls_bytes(calls: Seq<message::CallView>) -> Seq<u8>
    decreases calls.len(),
{
    if calls.len() == 0 {
        Seq::empty()
    } else {
        let c = calls.last();
        calls_bytes(calls.drop_last()) + encode_utf8(c.id).push(0) + encode_utf8(c.name).push(0)
            + encode_utf8(c.arguments).push(0xfe)
    }
}

/// The bytes of a block that holds data of a type.
pub open spec fn data_bytes(kind: Seq<char>, media_type: Seq<char>, data: Seq<char>) -> Seq<u8> {
    encode_utf8(kind).push(0) + encode_utf8(media_type).push(0) + encode_utf8(data)
}

pub open spec fn block_bytes(block: message::BlockView) -> Seq<u8> {
    match block {
        message::BlockView::Text(t) => encode_utf8("text"@).push(0) + encode_utf8(t),
        message::BlockView::Image { media_type, data } => data_bytes("image"@, media_type, data),
        message::BlockView::Audio { media_type, data } => data_bytes("audio"@, media_type, data),
        message::BlockView::File { media_type, data } => data_bytes("file"@, media_type, data),
        message::BlockView::Unsupported { kind } => encode_utf8("unsupported"@).push(0)
            + encode_utf8(kind),
    }
}

pub open spec fn blocks_bytes(blocks: Seq<message::BlockView>) -> Seq<u8>
    decreases blocks.len(),
{
    if blocks.len() == 0 {
        Seq::empty()
    } else {
        blocks_bytes(blocks.drop_last()) + block_bytes(blocks.last()).push(0xfd)
    }
}

pub open spec fn responses_bytes(states: Seq<message::ResponsesView>) -> Seq<u8>
    decreases states.len(),
{
    if states.len() == 0 {
        Seq::empty()
    } else {
        responses_bytes(states.drop_last()) + encode_utf8("responses-reasoning"@) + encode_utf8(
            json::json_text(states.last().item),
        )
    }
}

/// The bytes that stand for a message in a fingerprint.
pub open spec fn message_bytes(m: message::MessageView) -> Seq<u8> {
    let chat = match m.chat_reasoning {
        Some(state) => encode_utf8("chat-reasoning"@) + encode_utf8(state.content),
        None => Seq::empty(),
    };
    (encode_utf8(m.role).push(0) + encode_utf8(m.content).push(0) + opt_bytes(m.name).push(0)
        + opt_bytes(m.tool_call_id).push(0) + calls_bytes(m.tool_calls) + blocks_bytes(
        m.content_blocks,
    ) + chat + responses_bytes(m.responses_reasoning)).push(0xff)
}

pub open spec fn history_bytes(messages: Seq<message::MessageView>) -> Seq<u8>
    decreases messages.len(),
{
    if messages.len() == 0 {
        Seq::empty()
    } else {
        history_bytes(messages.drop_last()) + message_bytes(messages.last())
    }
}

/// The fingerprint of a history: the first sixteen hexadecimal digits of the
/// SHA-256 digest of its bytes.
pub open spec fn fingerprint(messages: Seq<message::MessageView>) -> Seq<char> {
    text::hex(hash::sha256_digest(history_bytes(messages))).take(16)
}

fn put_text(out: &mut Vec<u8>, s: &str)
    ensures
        final(out)@ == old(out)@ + encode_utf8(s@),
{
    let bytes = s.as_bytes();
    let ghost start = out@;
    let mut i: usize = 0;
    assert(out@ =~= start + bytes@.take(0));
    while i < bytes.len()
        invariant
            i <= bytes@.len(),
            out@ == start + bytes@.take(i as int),
        decreases bytes@.len() - i,
    {
        out.push(bytes[i]);
        assert(bytes@.take(i + 1) =~= bytes@.take(i as int).push(bytes@[i as int]));
        assert(out@ =~= start + bytes@.take(i + 1));
        i = i + 1;
    }
    assert(bytes@.take(bytes@.len() as int) =~= bytes@);
}

/// Puts a text and a closing byte.
fn put_field(out: &mut Vec<u8>, s: &str, close: u8)
    ensures
        final(out)@ == old(out)@ + encode_utf8(s@).push(close),
{
    let ghost start = out@;
    put_text(out, s);
    out.push(close);
    assert(out@ =~= start + encode_utf8(s@).push(close));
}

fn put_opt(out: &mut Vec<u8>, s: &Option<String>)
    ensures
        final(out)@ == old(out)@ + opt_bytes(message::opt_text(*s)).push(0),
{
    match s {
        Some(t) => put_field(out, t.as_str(), 0),
        None => {
            let ghost start = out@;
            out.push(0);
            assert(out@ =~= start + Seq::<u8>::empty().push(0));
        },
    }
}

fn put_calls(out: &mut Vec<u8>, calls: &Vec<ProviderToolCall>)
    ensures
        final(out)@ == old(out)@ + calls_bytes(message::call_views(calls@)),
{
    let ghost all = message::call_views(calls@);
    let ghost start = out@;
    let mut i: usize = 0;
    assert(out@ =~= start + calls_bytes(all.take(0)));
    while i < calls.len()
        invariant
            i <= calls@.len(),
            all == message::call_views(calls@),
            out@ == start + calls_bytes(all.take(i as int)),
        decreases calls@.len() - i,
    {
        assert(all.take(i + 1).drop_last() =~= all.take(i as int));
        let c = &calls[i];
        put_field(out, c.id.as_str(), 0);
        put_field(out, c.name.as_str(), 0);
        put_field(out, c.arguments.as_str(), 0xfe);
        assert(out@ =~= start + calls_bytes(all.take(i + 1)));
        i = i + 1;
    }
    assert(all.take(all.len() as int) =~= all);
}

fn put_data(out: &mut Vec<u8>, kind: &str, media_type: &str, data: &str)
    ensures
        final(out)@ == old(out)@ + data_bytes(kind@, media_type@, data@),
{
    let ghost start = out@;
    put_field(out, kind, 0);
    put_field(out, media_type, 0);
    put_text(out, data);
    assert(out@ =~= start + data_bytes(kind@, media_type@, data@));
}

fn put_block(out: &mut Vec<u8>, block: &ProviderContentBlock)
    ensures
        final(out)@ == old(out)@ + block_bytes(block@),
{
    let ghost start = out@;
    match block {
        ProviderContentBlock::Text(t) => {
            put_field(out, "text", 0);
            put_text(out, t.as_str());
        },
        ProviderContentBlock::Image { media_type, data } => {
            put_data(out, "image", media_type.as_str(), data.as_str());
        },
        ProviderContentBlock::Audio { media_type, data } => {
            put_data(out, "audio", media_type.as_str(), data.as_str());
        },
        ProviderContentBlock::File { media_type, data } => {
            put_data(out, "file", media_type.as_str(), data.as_str());
        },
        ProviderContentBlock::Unsupported { kind } => {
            put_field(out, "unsupported", 0);
            put_text(out, kind.as_str());
        },
    }
    assert(out@ =~= start + block_bytes(block@));
}

fn put_blocks(out: &mut Vec<u8>, blocks: &Vec<ProviderContentBlock>)
    ensures
        final(out)@ == old(out)@ + blocks_bytes(message::block_views(blocks@)),
{
    let ghost all = message::block_views(blocks@);
    let ghost start = out@;
    let mut i: usize = 0;
    assert(out@ =~= start + blocks_bytes(all.take(0)));
    while i < blocks.len()
        invariant
            i <= blocks@.len(),
            all == message::block_views(blocks@),
            out@ == start + blocks_bytes(all.take(i as int)),
        decreases blocks@.len() - i,
    {
        assert(all.take(i + 1).drop_last() =~= all.take(i as int));
        put_block(out, &blocks[i]);
        out.push(0xfd);
        assert(out@ =~= start + blocks_bytes(all.take(i + 1)));
        i = i + 1;
    }
    assert(all.take(all.len() as int) =~= all);
}

fn put_responses(out: &mut Vec<u8>, states: &Vec<ResponsesReasoning>)
    ensures
        final(out)@ == old(out)@ + responses_bytes(message::responses_views(states@)),
{
    let ghost all = message::responses_views(states@);
    let ghost start = out@;
    let mut i: usize = 0;
    assert(out@ =~= start + responses_bytes(all.take(0)));
    while i < states.len()
        invariant
            i <= states@.len(),
            all == message::responses_views(states@),
            out@ == start + responses_bytes(all.take(i as int)),
        decreases states@.len() - i,
    {
        assert(all.take(i + 1).drop_last() =~= all.take(i as int));
        put_text(out, "responses-reasoning");
        put_text(out, json::to_text(&states[i].item).as_str());
        assert(out@ =~= start + responses_bytes(all.take(i + 1)));
        i = i + 1;
    }
    assert(all.take(all.len() as int) =~= all);
}

fn put_message(out: &mut Vec<u8>, m: &ProviderMessage)
    ensures
        final(out)@ == old(out)@ + message_bytes(m@),
{
    let ghost start = out@;
    put_field(out, m.role.as_str(), 0);
    put_field(out, m.content.as_str(), 0);
    put_opt(out, &m.name);
    put_opt(out, &m.tool_call_id);
    put_calls(out, &m.tool_calls);
    put_blocks(out, &m.content_blocks);
    if let Some(state) = &m.chat_reasoning {
        put_text(out, "chat-reasoning");
        put_text(out, state.content.as_str());
    }
    put_responses(out, &m.responses_reasoning);
    out.push(0xff);
    assert(out@ =~= start + message_bytes(m@));
}

/// The fingerprint of the first `count` messages.
pub fn prefix_fingerprint(messages: &Vec<ProviderMessage>, count: usize) -> (r: String)
    requires
        count <= messages@.len(),
    ensures
        r@ == fingerprint(message::views(messages@).take(count as int)),
{
    let ghost all = message::views(messages@);
    let mut bytes: Vec<u8> = Vec::new();
    let mut i: usize = 0;
    while i < count
        invariant
            i <= count <= messages@.len(),
            all == message::views(messages@),
            bytes@ == history_bytes(all.take(i as int)),
        decreases count - i,
    {
        assert(all.take(i + 1).drop_last() =~= all.take(i as int));
        put_message(&mut bytes, &messages[i]);
        i = i + 1;
    }
    let digest = hash::sha256(&bytes);
    let digits = text::hex_of(&digest);
    text::first_chars_of(digits.as_str(), 16)
}

pub fn compaction_prefix_fingerprint(messages: &Vec<ProviderMessage>) -> (r: String)
    ensures
        r@ == fingerprint(message::views(messages@)),
{
    let ghost all = message::views(messages@);
    assert(all.take(all.len() as int) =~= all);
    prefix_fingerprint(messages, messages.len())
}

} // verus!
