//! What a request is made of: how many bytes each part takes, and what its parts
//! are recognised by.
use vstd::prelude::*;
use vstd::string::*;

use crate::arith;
use crate::json;
use crate::json::{Json, Tree};
use crate::provider::canonical;
use crate::text;

verus! {

/// The bytes of the parts of a request.
#[derive(Clone, Copy, Debug, PartialEq, Eq, Structural)]
pub struct ProviderRequestComponents {
    pub system_bytes: u64,
    pub tool_schema_bytes: u64,
    pub history_bytes: u64,
    pub tool_result_bytes: u64,
}

impl Default for ProviderRequestComponents {
    fn default() -> (r: ProviderRequestComponents)
        ensures
            r == no_components(),
    {
        ProviderRequestComponents {
            system_bytes: 0,
            tool_schema_bytes: 0,
            history_bytes: 0,
            tool_result_bytes: 0,
        }
    }
}

pub open spec fn no_components() -> ProviderRequestComponents {
    ProviderRequestComponents {
        system_bytes: 0,
        tool_schema_bytes: 0,
        history_bytes: 0,
        tool_result_bytes: 0,
    }
}

/// What the parts of a request are recognised by.
#[derive(Clone, Copy, Debug, PartialEq, Eq, Structural)]
pub struct ProviderRequestFingerprints {
    pub system: u64,
    pub tools: u64,
    pub history: u64,
}

impl Default for ProviderRequestFingerprints {
    fn default() -> (r: ProviderRequestFingerprints)
        ensures
            r == no_fingerprints(),
    {
        ProviderRequestFingerprints { system: 0, tools: 0, history: 0 }
    }
}

pub open spec fn no_fingerprints() -> ProviderRequestFingerprints {
    ProviderRequestFingerprints { system: 0, tools: 0, history: 0 }
}

/// The bytes that a value takes in a request.
pub open spec fn value_bytes(tree: Tree) -> u64 {
    arith::clamp64(text::byte_len(json::json_text(tree)) as int)
}

pub fn provider_serialized_value_bytes(value: &Json) -> (r: u64)
    ensures
        r == value_bytes(value@),
{
    let written = json::to_text(value);
    text::byte_count(written.as_str()) as u64
}

/// Whether a text names the result of a tool on the wire.
pub open spec fn result_type(kind: Option<Seq<char>>) -> bool {
    kind == Some("function_call_output"@) || kind == Some("tool_result"@)
}

/// Whether an item of a request is, or holds, the result of a tool.
pub open spec fn wire_tool_result(item: Tree) -> bool {
    result_type(item.text_at("type"@)) || (item.items_at("content"@) matches Some(blocks)
        && exists|i: int|
        0 <= i < blocks.len() && result_type((#[trigger] blocks[i]).text_at("type"@)))
}

fn is_result_type(value: &Json) -> (r: bool)
    ensures
        r == result_type(value@.text_at("type"@)),
{
    match value.str_at("type") {
        Some(kind) => text::same(kind, "function_call_output") || text::same(kind, "tool_result"),
        None => false,
    }
}

pub fn provider_wire_tool_result(item: &Json) -> (r: bool)
    ensures
        r == wire_tool_result(item@),
{
    if is_result_type(item) {
        return true;
    }
    if let Some(blocks) = item.array_at("content") {
        let mut i: usize = 0;
        while i < blocks.len()
            invariant
                i <= blocks.len(),
                item@.items_at("content"@) == Some(json::trees(blocks@)),
                forall|k: int|
                    0 <= k < i ==> !result_type(
                        (#[trigger] json::trees(blocks@)[k]).text_at("type"@),
                    ),
            decreases blocks.len() - i,
        {
            assert(json::trees(blocks@)[i as int] == blocks@[i as int]@);
            if is_result_type(&blocks[i]) {
                return true;
            }
            i = i + 1;
        }
    }
    false
}

/// Whether an item carries rules.
pub open spec fn carries_rules(item: Tree) -> bool {
    item.text_at("role"@) == Some("system"@) || item.text_at("role"@) == Some("developer"@)
}

fn item_carries_rules(item: &Json) -> (r: bool)
    ensures
        r == carries_rules(item@),
{
    match item.str_at("role") {
        Some(role) => text::same(role, "system") || text::same(role, "developer"),
        None => false,
    }
}

impl ProviderRequestComponents {
    /// The parts with one more item among the messages or the input.
    pub open spec fn with_item(self, item: Tree, in_messages: bool) -> ProviderRequestComponents {
        let bytes = value_bytes(item);
        if carries_rules(item) {
            ProviderRequestComponents {
                system_bytes: arith::clamp64(self.system_bytes + bytes),
                ..self
            }
        } else if (in_messages && item.text_at("role"@) == Some("tool"@)) || wire_tool_result(
            item,
        ) {
            ProviderRequestComponents {
                tool_result_bytes: arith::clamp64(self.tool_result_bytes + bytes),
                ..self
            }
        } else {
            ProviderRequestComponents {
                history_bytes: arith::clamp64(self.history_bytes + bytes),
                ..self
            }
        }
    }

    /// The parts with one item after the other.
    pub open spec fn with_items(
        self,
        items: Seq<Tree>,
        in_messages: bool,
    ) -> ProviderRequestComponents
        decreases items.len(),
    {
        if items.len() == 0 {
            self
        } else {
            self.with_items(items.drop_last(), in_messages).with_item(items.last(), in_messages)
        }
    }

    /// The parts with what stands among the messages or the input.
    pub open spec fn with_field(
        self,
        field: Option<Tree>,
        in_messages: bool,
    ) -> ProviderRequestComponents {
        match field {
            Some(Tree::Array(items)) => self.with_items(items, in_messages),
            Some(other) => ProviderRequestComponents {
                history_bytes: arith::clamp64(self.history_bytes + value_bytes(other)),
                ..self
            },
            None => self,
        }
    }
}

pub open spec fn bytes_or_zero(field: Option<Tree>) -> u64 {
    match field {
        Some(tree) => value_bytes(tree),
        None => 0,
    }
}

/// What stands under the first of two keys that is there.
pub open spec fn either(tree: Tree, a: Seq<char>, b: Seq<char>) -> Option<Tree> {
    if tree.get(a) is Some {
        tree.get(a)
    } else {
        tree.get(b)
    }
}

/// The bytes of the parts of a request.
pub open spec fn components_of(tree: Tree) -> ProviderRequestComponents {
    ProviderRequestComponents {
        system_bytes: bytes_or_zero(either(tree, "system"@, "instructions"@)),
        tool_schema_bytes: bytes_or_zero(tree.get("tools"@)),
        history_bytes: 0,
        tool_result_bytes: 0,
    }.with_field(tree.get("messages"@), true).with_field(tree.get("input"@), false)
}

pub(crate) fn either_of<'a>(value: &'a Json, a: &str, b: &str) -> (r: Option<&'a Json>)
    ensures
        (match r {
            Some(j) => either(value@, a@, b@) == Some(j@),
            None => either(value@, a@, b@) is None,
        }),
{
    match value.get(a) {
        Some(found) => Some(found),
        None => value.get(b),
    }
}

fn sum(a: u64, b: u64) -> (r: u64)
    ensures
        r == arith::clamp64(a + b),
{
    a.saturating_add(b)
}

fn count_item(c: ProviderRequestComponents, item: &Json, in_messages: bool) -> (r:
    ProviderRequestComponents)
    ensures
        r == c.with_item(item@, in_messages),
{
    let bytes: u64 = provider_serialized_value_bytes(item);
    let from_tool = match item.str_at("role") {
        Some(role) => in_messages && text::same(role, "tool"),
        None => false,
    };
    if item_carries_rules(item) {
        ProviderRequestComponents { system_bytes: sum(c.system_bytes, bytes), ..c }
    } else if from_tool || provider_wire_tool_result(item) {
        ProviderRequestComponents { tool_result_bytes: sum(c.tool_result_bytes, bytes), ..c }
    } else {
        ProviderRequestComponents { history_bytes: sum(c.history_bytes, bytes), ..c }
    }
}

fn count_field(c: ProviderRequestComponents, field: Option<&Json>, in_messages: bool) -> (r:
    ProviderRequestComponents)
    ensures
        r == c.with_field(
            match field {
                Some(j) => Some(j@),
                None => None,
            },
            in_messages,
        ),
{
    let value = match field {
        Some(value) => value,
        None => return c,
    };
    match value.as_array() {
        Some(items) => {
            let ghost all = json::trees(items@);
            let mut r = c;
            let mut i: usize = 0;
            assert(all.take(0) =~= Seq::empty());
            while i < items.len()
                invariant
                    i <= items.len(),
                    all == json::trees(items@),
                    r == c.with_items(all.take(i as int), in_messages),
                decreases items.len() - i,
            {
                r = count_item(r, &items[i], in_messages);
                assert(all.take(i + 1).drop_last() =~= all.take(i as int));
                assert(all.take(i + 1).last() == items@[i as int]@);
                i = i + 1;
            }
            assert(all.take(all.len() as int) =~= all);
            r
        },
        None => {
            let bytes: u64 = provider_serialized_value_bytes(value);
            ProviderRequestComponents { history_bytes: sum(c.history_bytes, bytes), ..c }
        },
    }
}

fn field_bytes(field: Option<&Json>) -> (r: u64)
    ensures
        r == bytes_or_zero(
            match field {
                Some(j) => Some(j@),
                None => None,
            },
        ),
{
    match field {
        Some(value) => provider_serialized_value_bytes(value),
        None => 0,
    }
}

/// Counts the bytes of the parts of a request.
pub fn provider_request_components(value: &Json) -> (r: ProviderRequestComponents)
    ensures
        r == components_of(value@),
{
    let c = ProviderRequestComponents {
        system_bytes: field_bytes(either_of(value, "system", "instructions")),
        tool_schema_bytes: field_bytes(value.get("tools")),
        history_bytes: 0,
        tool_result_bytes: 0,
    };
    let c = count_field(c, value.get("messages"), true);
    count_field(c, value.get("input"), false)
}

/// The bytes of a request's body as text, read and counted; zeros where it is no
/// JSON.
pub fn provider_request_component_bytes(body: &str) -> (r: (u64, u64, u64, u64))
    ensures
        ({
            let c = match json::parsed(body@) {
                Ok(tree) => components_of(tree),
                Err(_) => no_components(),
            };
            r == (c.system_bytes, c.tool_schema_bytes, c.history_bytes, c.tool_result_bytes)
        }),
{
    match json::parse(body) {
        Ok(value) => {
            let c = provider_request_components(&value);
            (c.system_bytes, c.tool_schema_bytes, c.history_bytes, c.tool_result_bytes)
        },
        Err(_) => (0, 0, 0, 0),
    }
}

proof fn lemma_items_accounted(
    c: ProviderRequestComponents,
    items: Seq<Tree>,
    in_messages: bool,
)
    ensures
        ({
            let r = c.with_items(items, in_messages);
            let all = c.system_bytes + c.history_bytes + c.tool_result_bytes + items_bytes(items);
            all <= u64::MAX ==> r.system_bytes + r.history_bytes + r.tool_result_bytes == all
                && r.tool_schema_bytes == c.tool_schema_bytes
        }),
    decreases items.len(),
{
    if items.len() > 0 {
        lemma_items_accounted(c, items.drop_last(), in_messages);
    }
}

/// The bytes of items.
pub open spec fn items_bytes(items: Seq<Tree>) -> int
    decreases items.len(),
{
    if items.len() == 0 {
        0
    } else {
        items_bytes(items.drop_last()) + value_bytes(items.last())
    }
}

/// Every byte of the messages is counted once: as rules, as the result of a tool
/// or as history.
pub proof fn law_every_message_is_accounted_for(tree: Tree, items: Seq<Tree>)
    requires
        tree.get("messages"@) == Some(Tree::Array(items)),
        tree.get("input"@) is None,
        bytes_or_zero(either(tree, "system"@, "instructions"@)) + items_bytes(items) <= u64::MAX,
    ensures
        ({
            let c = components_of(tree);
            c.system_bytes + c.history_bytes + c.tool_result_bytes == bytes_or_zero(
                either(tree, "system"@, "instructions"@),
            ) + items_bytes(items)
        }),
{
    lemma_items_accounted(
        ProviderRequestComponents {
            system_bytes: bytes_or_zero(either(tree, "system"@, "instructions"@)),
            tool_schema_bytes: bytes_or_zero(tree.get("tools"@)),
            history_bytes: 0,
            tool_result_bytes: 0,
        },
        items,
        true,
    );
}

/// The messages that carry rules, in canonical form.
pub open spec fn framed_rules(items: Seq<Tree>) -> Seq<char>
    decreases items.len(),
{
    if items.len() == 0 {
        Seq::empty()
    } else {
        let front = framed_rules(items.drop_last());
        if carries_rules(items.last()) {
            front + canonical::frame(canonical::canonical(items.last()))
        } else {
            front
        }
    }
}

/// What the rules of a request are recognised by; zero where there are none.
pub open spec fn system_fingerprint(tree: Tree) -> u64 {
    match either(tree, "system"@, "instructions"@) {
        Some(system) => canonical::fingerprint(system),
        None => match tree.items_at("messages"@) {
            Some(items) => if framed_rules(items).len() == 0 {
                0
            } else {
                canonical::text_hash(framed_rules(items))
            },
            None => 0,
        },
    }
}

pub fn provider_system_fingerprint(value: &Json) -> (r: u64)
    ensures
        r == system_fingerprint(value@),
{
    if let Some(system) = either_of(value, "system", "instructions") {
        return canonical::json_value_fingerprint(system);
    }
    let items = match value.array_at("messages") {
        Some(items) => items,
        None => return 0,
    };
    let ghost all = json::trees(items@);
    let mut out = String::new();
    let mut i: usize = 0;
    assert(out@ =~= framed_rules(all.take(0)));
    while i < items.len()
        invariant
            i <= items.len(),
            all == json::trees(items@),
            out@ == framed_rules(all.take(i as int)),
        decreases items.len() - i,
    {
        assert(all.take(i + 1).drop_last() =~= all.take(i as int));
        assert(all.take(i + 1).last() == items@[i as int]@);
        if item_carries_rules(&items[i]) {
            let mut encoded = String::new();
            canonical::canonical_json(&items[i], &mut encoded);
            assert(encoded@ =~= canonical::canonical(items@[i as int]@));
            canonical::canonical_push(&mut out, encoded.as_str());
        }
        i = i + 1;
    }
    assert(all.take(all.len() as int) =~= all);
    if out.as_str().is_empty() {
        0
    } else {
        canonical::hash_of(out.as_str())
    }
}

pub open spec fn fingerprint_or_zero(field: Option<Tree>) -> u64 {
    match field {
        Some(tree) => canonical::fingerprint(tree),
        None => 0,
    }
}

fn fingerprint_of(field: Option<&Json>) -> (r: u64)
    ensures
        r == fingerprint_or_zero(
            match field {
                Some(j) => Some(j@),
                None => None,
            },
        ),
{
    match field {
        Some(value) => canonical::json_value_fingerprint(value),
        None => 0,
    }
}

/// What the rules and the tools of a request are recognised by.
pub open spec fn prefix_fingerprints(tree: Tree) -> ProviderRequestFingerprints {
    ProviderRequestFingerprints {
        system: system_fingerprint(tree),
        tools: fingerprint_or_zero(tree.get("tools"@)),
        history: 0,
    }
}

pub fn provider_prefix_fingerprints(value: &Json) -> (r: ProviderRequestFingerprints)
    ensures
        r == prefix_fingerprints(value@),
{
    ProviderRequestFingerprints {
        system: provider_system_fingerprint(value),
        tools: fingerprint_of(value.get("tools")),
        history: 0,
    }
}

pub open spec fn history_fingerprint(tree: Tree) -> u64 {
    fingerprint_or_zero(either(tree, "messages"@, "input"@))
}

pub fn provider_history_fingerprint(value: &Json) -> (r: u64)
    ensures
        r == history_fingerprint(value@),
{
    fingerprint_of(either_of(value, "messages", "input"))
}

/// What the parts of a request are recognised by.
pub open spec fn fingerprints_of(tree: Tree) -> ProviderRequestFingerprints {
    ProviderRequestFingerprints {
        history: history_fingerprint(tree),
        ..prefix_fingerprints(tree)
    }
}

pub fn provider_request_fingerprints(value: &Json) -> (r: ProviderRequestFingerprints)
    ensures
        r == fingerprints_of(value@),
{
    let prefixes = provider_prefix_fingerprints(value);
    ProviderRequestFingerprints { history: provider_history_fingerprint(value), ..prefixes }
}

} // verus!
