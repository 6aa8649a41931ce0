//! Messages of a conversation with a provider.
use vstd::prelude::*;
use crate::json;
use crate::json::Json;
use crate::text;

verus! {

/// A tool call that an assistant message asks for.
#[derive(Clone, Debug, PartialEq, Eq)]
pub struct ProviderToolCall {
    pub id: String,
    pub name: String,
    pub arguments: String,
}

#[verifier::ext_equal]
pub struct CallView {
    pub id: Seq<char>,
    pub name: Seq<char>,
    pub arguments: Seq<char>,
}

impl View for ProviderToolCall {
    type V = CallView;

    open spec fn view(&self) -> CallView {
        CallView { id: self.id@, name: self.name@, arguments: self.arguments@ }
    }
}

/// Optional content blocks attached to a provider message.
///
/// Images are accepted only as base64 data (or a `data:` URI through
/// [`ProviderContentBlock::image_data_uri`]); no filesystem or network access
/// is performed while normalizing them.
#[derive(Clone, Debug, PartialEq, Eq)]
pub enum ProviderContentBlock {
    Text(String),
    Image { media_type: String, data: String },
    Audio { media_type: String, data: String },
    File { media_type: String, data: String },
    Unsupported { kind: String },
}

#[verifier::ext_equal]
pub enum BlockView {
    Text(Seq<char>),
    Image { media_type: Seq<char>, data: Seq<char> },
    Audio { media_type: Seq<char>, data: Seq<char> },
    File { media_type: Seq<char>, data: Seq<char> },
    Unsupported { kind: Seq<char> },
}

impl View for ProviderContentBlock {
    type V = BlockView;

    open spec fn view(&self) -> BlockView {
        match self {
            ProviderContentBlock::Text(t) => BlockView::Text(t@),
            ProviderContentBlock::Image { media_type, data } => BlockView::Image {
                media_type: media_type@,
                data: data@,
            },
            ProviderContentBlock::Audio { media_type, data } => BlockView::Audio {
                media_type: media_type@,
                data: data@,
            },
            ProviderContentBlock::File { media_type, data } => BlockView::File {
                media_type: media_type@,
                data: data@,
            },
            ProviderContentBlock::Unsupported { kind } => BlockView::Unsupported { kind: kind@ },
        }
    }
}

/// Exact Chat continuation state; never rendered or put into summaries.
#[derive(Clone, PartialEq, Eq)]
pub struct ChatReasoning {
    pub scope_id: u64,
    pub model: String,
    pub content: String,
}

#[verifier::ext_equal]
pub struct ChatView {
    pub scope_id: u64,
    pub model: Seq<char>,
    pub content: Seq<char>,
}

impl ChatView {
    pub open spec fn belongs(self, scope_id: Option<u64>, model: Seq<char>) -> bool {
        scope_id == Some(self.scope_id) && model == self.model
    }
}

impl View for ChatReasoning {
    type V = ChatView;

    open spec fn view(&self) -> ChatView {
        ChatView { scope_id: self.scope_id, model: self.model@, content: self.content@ }
    }
}

/// Opaque Responses items are valid only for the adapter instance that issued
/// them. A new model/account/transport must not inherit encrypted state.
#[derive(Clone, PartialEq, Eq)]
pub struct ResponsesReasoning {
    pub scope_id: u64,
    pub model: String,
    pub item: Json,
}

#[verifier::ext_equal]
pub struct ResponsesView {
    pub scope_id: u64,
    pub model: Seq<char>,
    pub item: json::Tree,
}

impl ResponsesView {
    pub open spec fn belongs(self, scope_id: Option<u64>, model: Seq<char>) -> bool {
        scope_id == Some(self.scope_id) && model == self.model
    }
}

impl View for ResponsesReasoning {
    type V = ResponsesView;

    open spec fn view(&self) -> ResponsesView {
        ResponsesView { scope_id: self.scope_id, model: self.model@, item: self.item@ }
    }
}

/// One message of a conversation.
#[derive(Clone, PartialEq, Eq)]
pub struct ProviderMessage {
    pub role: String,
    pub content: String,
    pub name: Option<String>,
    pub tool_call_id: Option<String>,
    pub tool_calls: Vec<ProviderToolCall>,
    pub content_blocks: Vec<ProviderContentBlock>,
    pub responses_reasoning: Vec<ResponsesReasoning>,
    pub chat_reasoning: Option<ChatReasoning>,
}

#[verifier::ext_equal]
pub struct MessageView {
    pub role: Seq<char>,
    pub content: Seq<char>,
    pub name: Option<Seq<char>>,
    pub tool_call_id: Option<Seq<char>>,
    pub tool_calls: Seq<CallView>,
    pub content_blocks: Seq<BlockView>,
    pub responses_reasoning: Seq<ResponsesView>,
    pub chat_reasoning: Option<ChatView>,
}

/// The characters of a text that may be missing.
pub open spec fn opt_text(s: Option<String>) -> Option<Seq<char>> {
    match s {
        Some(t) => Some(t@),
        None => None,
    }
}

pub open spec fn call_views(calls: Seq<ProviderToolCall>) -> Seq<CallView> {
    calls.map_values(|c: ProviderToolCall| c@)
}

pub open spec fn block_views(blocks: Seq<ProviderContentBlock>) -> Seq<BlockView> {
    blocks.map_values(|b: ProviderContentBlock| b@)
}

pub open spec fn responses_views(states: Seq<ResponsesReasoning>) -> Seq<ResponsesView> {
    states.map_values(|r: ResponsesReasoning| r@)
}

pub open spec fn chat_view(state: Option<ChatReasoning>) -> Option<ChatView> {
    match state {
        Some(c) => Some(c@),
        None => None,
    }
}

impl View for ProviderMessage {
    type V = MessageView;

    open spec fn view(&self) -> MessageView {
        MessageView {
            role: self.role@,
            content: self.content@,
            name: opt_text(self.name),
            tool_call_id: opt_text(self.tool_call_id),
            tool_calls: call_views(self.tool_calls@),
            content_blocks: block_views(self.content_blocks@),
            responses_reasoning: responses_views(self.responses_reasoning@),
            chat_reasoning: chat_view(self.chat_reasoning),
        }
    }
}

/// What the messages of a conversation are.
pub open spec fn views(messages: Seq<ProviderMessage>) -> Seq<MessageView> {
    messages.map_values(|m: ProviderMessage| m@)
}

/// A message that holds a role and a content and nothing else.
pub open spec fn plain_message(role: Seq<char>, content: Seq<char>) -> MessageView {
    MessageView {
        role,
        content,
        name: None,
        tool_call_id: None,
        tool_calls: Seq::empty(),
        content_blocks: Seq::empty(),
        responses_reasoning: Seq::empty(),
        chat_reasoning: None,
    }
}

/// A user's message.
pub open spec fn user_message(content: Seq<char>) -> MessageView {
    plain_message("user"@, content)
}

impl MessageView {
    /// The continuation scope of the message, where it carries one.
    pub open spec fn scope_id(self) -> Option<u64> {
        match self.chat_reasoning {
            Some(state) => Some(state.scope_id),
            None => if self.responses_reasoning.len() > 0 {
                Some(self.responses_reasoning[0].scope_id)
            } else {
                None
            },
        }
    }

    /// The model that the continuation scope belongs to.
    pub open spec fn scope_model(self) -> Option<Seq<char>> {
        match self.chat_reasoning {
            Some(state) => Some(state.model),
            None => if self.responses_reasoning.len() > 0 {
                Some(self.responses_reasoning[0].model)
            } else {
                None
            },
        }
    }

    /// Whether the message holds reasoning that only its provider can read on.
    pub open spec fn has_reasoning(self) -> bool {
        self.responses_reasoning.len() > 0 || self.chat_reasoning is Some
    }
}

pub fn copy_opt(s: &Option<String>) -> (r: Option<String>)
    ensures
        opt_text(r) == opt_text(*s),
{
    match s {
        Some(t) => Some(t.clone()),
        None => None,
    }
}

pub fn same_opt(a: &Option<String>, b: &Option<String>) -> (r: bool)
    ensures
        r == (opt_text(*a) == opt_text(*b)),
{
    match (a, b) {
        (Some(x), Some(y)) => text::same(x.as_str(), y.as_str()),
        (None, None) => true,
        _ => false,
    }
}

impl ProviderToolCall {
    pub fn copy(&self) -> (r: ProviderToolCall)
        ensures
            r@ == self@,
    {
        ProviderToolCall {
            id: self.id.clone(),
            name: self.name.clone(),
            arguments: self.arguments.clone(),
        }
    }
}

pub fn copy_calls(calls: &Vec<ProviderToolCall>) -> (out: Vec<ProviderToolCall>)
    ensures
        call_views(out@) == call_views(calls@),
{
    let mut out: Vec<ProviderToolCall> = Vec::new();
    let mut i: usize = 0;
    while i < calls.len()
        invariant
            i <= calls@.len(),
            call_views(out@) == call_views(calls@).take(i as int),
        decreases calls@.len() - i,
    {
        let ghost done = out@;
        let c = calls[i].copy();
        out.push(c);
        assert(call_views(out@) =~= call_views(done).push(c@));
        assert(call_views(calls@).take(i + 1) =~= call_views(calls@).take(i as int).push(c@));
        i = i + 1;
    }
    assert(call_views(calls@).take(calls@.len() as int) =~= call_views(calls@));
    out
}

impl ProviderContentBlock {
    pub fn text(text: String) -> (r: ProviderContentBlock)
        ensures
            r@ == BlockView::Text(text@),
    {
        ProviderContentBlock::Text(text)
    }

    pub fn image(media_type: String, base64_data: String) -> (r: ProviderContentBlock)
        ensures
            r@ == (BlockView::Image { media_type: media_type@, data: base64_data@ }),
    {
        ProviderContentBlock::Image { media_type, data: base64_data }
    }

    pub fn copy(&self) -> (r: ProviderContentBlock)
        ensures
            r@ == self@,
    {
        match self {
            ProviderContentBlock::Text(t) => ProviderContentBlock::Text(t.clone()),
            ProviderContentBlock::Image { media_type, data } => ProviderContentBlock::Image {
                media_type: media_type.clone(),
                data: data.clone(),
            },
            ProviderContentBlock::Audio { media_type, data } => ProviderContentBlock::Audio {
                media_type: media_type.clone(),
                data: data.clone(),
            },
            ProviderContentBlock::File { media_type, data } => ProviderContentBlock::File {
                media_type: media_type.clone(),
                data: data.clone(),
            },
            ProviderContentBlock::Unsupported { kind } => ProviderContentBlock::Unsupported {
                kind: kind.clone(),
            },
        }
    }
}

pub fn copy_blocks(blocks: &Vec<ProviderContentBlock>) -> (out: Vec<ProviderContentBlock>)
    ensures
        block_views(out@) == block_views(blocks@),
{
    let mut out: Vec<ProviderContentBlock> = Vec::new();
    let mut i: usize = 0;
    while i < blocks.len()
        invariant
            i <= blocks@.len(),
            block_views(out@) == block_views(blocks@).take(i as int),
        decreases blocks@.len() - i,
    {
        let ghost done = out@;
        let b = blocks[i].copy();
        out.push(b);
        assert(block_views(out@) =~= block_views(done).push(b@));
        assert(block_views(blocks@).take(i + 1) =~= block_views(blocks@).take(i as int).push(b@));
        i = i + 1;
    }
    assert(block_views(blocks@).take(blocks@.len() as int) =~= block_views(blocks@));
    out
}

impl ChatReasoning {
    /// Whether the state was issued to the adapter with a scope and a model; it
    /// means nothing to another.
    pub fn belongs_to(&self, scope_id: Option<u64>, model: &str) -> (r: bool)
        ensures
            r == self@.belongs(scope_id, model@),
    {
        match scope_id {
            Some(id) => id == self.scope_id && text::same(model, self.model.as_str()),
            None => false,
        }
    }

    pub fn copy(&self) -> (r: ChatReasoning)
        ensures
            r@ == self@,
    {
        ChatReasoning {
            scope_id: self.scope_id,
            model: self.model.clone(),
            content: self.content.clone(),
        }
    }
}

impl ResponsesReasoning {
    /// Whether the state was issued to the adapter with a scope and a model; it
    /// means nothing to another.
    pub fn belongs_to(&self, scope_id: Option<u64>, model: &str) -> (r: bool)
        ensures
            r == self@.belongs(scope_id, model@),
    {
        match scope_id {
            Some(id) => id == self.scope_id && text::same(model, self.model.as_str()),
            None => false,
        }
    }

    pub fn copy(&self) -> (r: ResponsesReasoning)
        ensures
            r@ == self@,
    {
        ResponsesReasoning {
            scope_id: self.scope_id,
            model: self.model.clone(),
            item: self.item.copy(),
        }
    }
}

pub fn copy_responses(states: &Vec<ResponsesReasoning>) -> (out: Vec<ResponsesReasoning>)
    ensures
        responses_views(out@) == responses_views(states@),
{
    let mut out: Vec<ResponsesReasoning> = Vec::new();
    let mut i: usize = 0;
    while i < states.len()
        invariant
            i <= states@.len(),
            responses_views(out@) == responses_views(states@).take(i as int),
        decreases states@.len() - i,
    {
        let ghost done = out@;
        let s = states[i].copy();
        out.push(s);
        assert(responses_views(out@) =~= responses_views(done).push(s@));
        assert(responses_views(states@).take(i + 1) =~= responses_views(states@).take(
            i as int,
        ).push(s@));
        i = i + 1;
    }
    assert(responses_views(states@).take(states@.len() as int) =~= responses_views(states@));
    out
}

impl ProviderMessage {
    pub fn user(content: String) -> (r: ProviderMessage)
        ensures
            r@ == user_message(content@),
    {
        let r = ProviderMessage {
            role: "user".to_owned(),
            content,
            name: None,
            tool_call_id: None,
            tool_calls: Vec::new(),
            content_blocks: Vec::new(),
            responses_reasoning: Vec::new(),
            chat_reasoning: None,
        };
        assert(r@ =~= user_message(content@));
        r
    }

    pub fn assistant(content: String, tool_calls: Vec<ProviderToolCall>) -> (r: ProviderMessage)
        ensures
            r@ == (MessageView {
                tool_calls: call_views(tool_calls@),
                ..plain_message("assistant"@, content@)
            }),
    {
        let r = ProviderMessage {
            role: "assistant".to_owned(),
            content,
            name: None,
            tool_call_id: None,
            tool_calls,
            content_blocks: Vec::new(),
            responses_reasoning: Vec::new(),
            chat_reasoning: None,
        };
        assert(r@ =~= (MessageView {
            tool_calls: call_views(tool_calls@),
            ..plain_message("assistant"@, content@)
        }));
        r
    }

    pub fn tool(name: String, tool_call_id: String, content: String) -> (r: ProviderMessage)
        ensures
            r@ == (MessageView {
                name: Some(name@),
                tool_call_id: Some(tool_call_id@),
                ..plain_message("tool"@, content@)
            }),
    {
        let r = ProviderMessage {
            role: "tool".to_owned(),
            content,
            name: Some(name),
            tool_call_id: Some(tool_call_id),
            tool_calls: Vec::new(),
            content_blocks: Vec::new(),
            responses_reasoning: Vec::new(),
            chat_reasoning: None,
        };
        assert(r@ =~= (MessageView {
            name: Some(name@),
            tool_call_id: Some(tool_call_id@),
            ..plain_message("tool"@, content@)
        }));
        r
    }

    pub fn with_content_blocks(self, blocks: Vec<ProviderContentBlock>) -> (r: ProviderMessage)
        ensures
            r@ == (MessageView { content_blocks: block_views(blocks@), ..self@ }),
    {
        ProviderMessage { content_blocks: blocks, ..self }
    }

    /// Adapter-scoped continuation token from the provider that produced this
    /// message. Durable JSONL never stores it; same-process callers reuse it
    /// so opaque reasoning can be sent on the next request.
    pub fn response_cache_scope_id(&self) -> (r: Option<u64>)
        ensures
            r == self@.scope_id(),
    {
        match &self.chat_reasoning {
            Some(state) => Some(state.scope_id),
            None => if self.responses_reasoning.len() > 0 {
                Some(self.responses_reasoning[0].scope_id)
            } else {
                None
            },
        }
    }

    pub fn response_cache_scope_model(&self) -> (r: Option<&str>)
        ensures
            (match r {
                Some(model) => self@.scope_model() == Some(model@),
                None => self@.scope_model() is None,
            }),
    {
        match &self.chat_reasoning {
            Some(state) => Some(state.model.as_str()),
            None => if self.responses_reasoning.len() > 0 {
                Some(self.responses_reasoning[0].model.as_str())
            } else {
                None
            },
        }
    }

    /// Whether the message's role is `role`.
    pub fn role_is(&self, role: &str) -> (r: bool)
        ensures
            r == (self@.role == role@),
    {
        text::same(self.role.as_str(), role)
    }

    /// Whether the message holds reasoning that only its provider can read on.
    pub fn carries_reasoning(&self) -> (r: bool)
        ensures
            r == self@.has_reasoning(),
    {
        self.responses_reasoning.len() > 0 || self.chat_reasoning.is_some()
    }

    /// A message with the same view.
    pub fn copy(&self) -> (r: ProviderMessage)
        ensures
            r@ == self@,
    {
        ProviderMessage {
            role: self.role.clone(),
            content: self.content.clone(),
            name: copy_opt(&self.name),
            tool_call_id: copy_opt(&self.tool_call_id),
            tool_calls: copy_calls(&self.tool_calls),
            content_blocks: copy_blocks(&self.content_blocks),
            responses_reasoning: copy_responses(&self.responses_reasoning),
            chat_reasoning: match &self.chat_reasoning {
                Some(c) => Some(c.copy()),
                None => None,
            },
        }
    }
}

/// Messages `from..to` of a conversation, copied.
pub fn copy_range(messages: &Vec<ProviderMessage>, from: usize, to: usize) -> (out: Vec<
    ProviderMessage,
>)
    requires
        from <= to <= messages@.len(),
    ensures
        views(out@) == views(messages@).subrange(from as int, to as int),
{
    let mut out: Vec<ProviderMessage> = Vec::new();
    let mut i: usize = from;
    while i < to
        invariant
            from <= i <= to <= messages@.len(),
            views(out@) == views(messages@).subrange(from as int, i as int),
        decreases to - i,
    {
        let ghost done = out@;
        let m = messages[i].copy();
        out.push(m);
        assert(views(out@) =~= views(done).push(m@));
        assert(views(messages@).subrange(from as int, i + 1) =~= views(messages@).subrange(
            from as int,
            i as int,
        ).push(m@));
        i = i + 1;
    }
    out
}

fn same_call(a: &ProviderToolCall, b: &ProviderToolCall) -> (r: bool)
    ensures
        r == (a@ == b@),
{
    text::same(a.id.as_str(), b.id.as_str()) && text::same(a.name.as_str(), b.name.as_str())
        && text::same(a.arguments.as_str(), b.arguments.as_str())
}

fn same_block(a: &ProviderContentBlock, b: &ProviderContentBlock) -> (r: bool)
    ensures
        r == (a@ == b@),
{
    match (a, b) {
        (ProviderContentBlock::Text(x), ProviderContentBlock::Text(y)) => text::same(
            x.as_str(),
            y.as_str(),
        ),
        (
            ProviderContentBlock::Image { media_type: m, data: d },
            ProviderContentBlock::Image { media_type: n, data: e },
        ) => text::same(m.as_str(), n.as_str()) && text::same(d.as_str(), e.as_str()),
        (
            ProviderContentBlock::Audio { media_type: m, data: d },
            ProviderContentBlock::Audio { media_type: n, data: e },
        ) => text::same(m.as_str(), n.as_str()) && text::same(d.as_str(), e.as_str()),
        (
            ProviderContentBlock::File { media_type: m, data: d },
            ProviderContentBlock::File { media_type: n, data: e },
        ) => text::same(m.as_str(), n.as_str()) && text::same(d.as_str(), e.as_str()),
        (
            ProviderContentBlock::Unsupported { kind: x },
            ProviderContentBlock::Unsupported { kind: y },
        ) => text::same(x.as_str(), y.as_str()),
        _ => false,
    }
}

fn same_calls(a: &Vec<ProviderToolCall>, b: &Vec<ProviderToolCall>) -> (r: bool)
    ensures
        r == (call_views(a@) == call_views(b@)),
{
    if a.len() != b.len() {
        assert(call_views(a@).len() != call_views(b@).len());
        return false;
    }
    let mut i: usize = 0;
    while i < a.len()
        invariant
            i <= a@.len(),
            a@.len() == b@.len(),
            forall|k: int| 0 <= k < i ==> call_views(a@)[k] == call_views(b@)[k],
        decreases a@.len() - i,
    {
        if !same_call(&a[i], &b[i]) {
            assert(call_views(a@)[i as int] != call_views(b@)[i as int]);
            return false;
        }
        i = i + 1;
    }
    assert(call_views(a@) =~= call_views(b@));
    true
}

fn same_blocks(a: &Vec<ProviderContentBlock>, b: &Vec<ProviderContentBlock>) -> (r: bool)
    ensures
        r == (block_views(a@) == block_views(b@)),
{
    if a.len() != b.len() {
        assert(block_views(a@).len() != block_views(b@).len());
        return false;
    }
    let mut i: usize = 0;
    while i < a.len()
        invariant
            i <= a@.len(),
            a@.len() == b@.len(),
            forall|k: int| 0 <= k < i ==> block_views(a@)[k] == block_views(b@)[k],
        decreases a@.len() - i,
    {
        if !same_block(&a[i], &b[i]) {
            assert(block_views(a@)[i as int] != block_views(b@)[i as int]);
            return false;
        }
        i = i + 1;
    }
    assert(block_views(a@) =~= block_views(b@));
    true
}

fn same_responses(a: &Vec<ResponsesReasoning>, b: &Vec<ResponsesReasoning>) -> (r: bool)
    ensures
        r == (responses_views(a@) == responses_views(b@)),
{
    if a.len() != b.len() {
        assert(responses_views(a@).len() != responses_views(b@).len());
        return false;
    }
    let mut i: usize = 0;
    while i < a.len()
        invariant
            i <= a@.len(),
            a@.len() == b@.len(),
            forall|k: int| 0 <= k < i ==> responses_views(a@)[k] == responses_views(b@)[k],
        decreases a@.len() - i,
    {
        if a[i].scope_id != b[i].scope_id || !text::same(a[i].model.as_str(), b[i].model.as_str())
            || !json::same_json(&a[i].item, &b[i].item) {
            assert(responses_views(a@)[i as int] != responses_views(b@)[i as int]);
            return false;
        }
        i = i + 1;
    }
    assert(responses_views(a@) =~= responses_views(b@));
    true
}

/// Whether two messages are the same.
pub fn same_message(a: &ProviderMessage, b: &ProviderMessage) -> (r: bool)
    ensures
        r == (a@ == b@),
{
    let chat = match (&a.chat_reasoning, &b.chat_reasoning) {
        (Some(x), Some(y)) => x.scope_id == y.scope_id && text::same(
            x.model.as_str(),
            y.model.as_str(),
        ) && text::same(x.content.as_str(), y.content.as_str()),
        (None, None) => true,
        _ => false,
    };
    assert(chat == (chat_view(a.chat_reasoning) == chat_view(b.chat_reasoning)));
    chat && text::same(a.role.as_str(), b.role.as_str()) && text::same(
        a.content.as_str(),
        b.content.as_str(),
    ) && same_opt(&a.name, &b.name) && same_opt(&a.tool_call_id, &b.tool_call_id) && same_calls(
        &a.tool_calls,
        &b.tool_calls,
    ) && same_blocks(&a.content_blocks, &b.content_blocks) && same_responses(
        &a.responses_reasoning,
        &b.responses_reasoning,
    )
}

/// The scope of the first message that has one for `model`.
pub open spec fn history_scope(history: Seq<MessageView>, model: Seq<char>) -> Option<u64>
    decreases history.len(),
{
    if history.len() == 0 {
        None
    } else if history[0].scope_id() is Some && history[0].scope_model() == Some(model) {
        history[0].scope_id()
    } else {
        history_scope(history.drop_first(), model)
    }
}

/// Scope id from live history that belongs to `model`. Cold durable history
/// has no continuation state, so this is `None` after a process restart.
pub fn history_response_cache_scope(history: &Vec<ProviderMessage>, model: &str) -> (r: Option<u64>)
    ensures
        r == history_scope(views(history@), model@),
{
    let mut i: usize = 0;
    assert(views(history@).skip(0) =~= views(history@));
    while i < history.len()
        invariant
            i <= history@.len(),
            history_scope(views(history@), model@) == history_scope(
                views(history@).skip(i as int),
                model@,
            ),
        decreases history@.len() - i,
    {
        let ghost rest = views(history@).skip(i as int);
        assert(rest[0] == history@[i as int]@);
        assert(rest.drop_first() =~= views(history@).skip(i + 1));
        if let Some(scope) = history[i].response_cache_scope_id() {
            if let Some(known) = history[i].response_cache_scope_model() {
                if text::same(known, model) {
                    return Some(scope);
                }
            }
        }
        i = i + 1;
    }
    None
}

} // verus!
