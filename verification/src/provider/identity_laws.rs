//! What a request is known by: nothing that sets two requests apart is left out of
//! the text that stands for them, whatever the parts are.
use vstd::prelude::*;
use vstd::string::*;

use crate::json::Tree;
use crate::provider::accounting;
use crate::provider::accounting::{ProviderRequestComponents, ProviderRequestFingerprints};
use crate::provider::canonical;
use crate::provider::content;
use crate::provider::endpoint;
use crate::provider::identity;
use crate::provider::message::{CallView, MessageView};
use crate::provider::types::ProviderKind;
use crate::json;
use crate::text;

verus! {

proof fn lemma_regrouped(a: Seq<char>, b: Seq<char>, x: Seq<char>)
    ensures
        (a + b) + x == a + (b + x),
{
    assert((a + b) + x =~= a + (b + x));
}

proof fn lemma_four(a: Seq<char>, b: Seq<char>, c: Seq<char>, d: Seq<char>, x: Seq<char>)
    ensures
        (a + (b + (c + d))) + x == a + (b + (c + (d + x))),
{
    lemma_regrouped(a, b + (c + d), x);
    lemma_regrouped(b, c + d, x);
    lemma_regrouped(c, d, x);
}

proof fn lemma_five(a: Seq<char>, b: Seq<char>, c: Seq<char>, d: Seq<char>, e: Seq<char>)
    ensures
        a + b + c + d + e == a + (b + (c + (d + e))),
{
    lemma_regrouped(a + b + c, d, e);
    lemma_regrouped(a + b, c, d + e);
    lemma_regrouped(a, b, c + (d + e));
}

proof fn lemma_eight(
    a: Seq<char>,
    b: Seq<char>,
    c: Seq<char>,
    d: Seq<char>,
    e: Seq<char>,
    f: Seq<char>,
    g: Seq<char>,
    h: Seq<char>,
    x: Seq<char>,
)
    ensures
        (a + b + c + d + e + f + g + h) + x == a + (b + (c + (d + (e + (f + (g + (h + x))))))),
{
    lemma_regrouped(a + b + c + d + e + f + g, h, x);
    lemma_regrouped(a + b + c + d + e + f, g, h + x);
    lemma_regrouped(a + b + c + d + e, f, g + (h + x));
    lemma_regrouped(a + b + c + d, e, f + (g + (h + x)));
    lemma_five(a, b, c, d, e + (f + (g + (h + x))));
}

proof fn lemma_frame_is_some(s: Seq<char>, x: Seq<char>)
    ensures
        (canonical::frame(s) + x).len() > 0,
{
    json::lemma_decimal_value(text::byte_len(s));
}

/// A list of calls in canonical form, taken apart at its first call.
proof fn lemma_first_call(calls: Seq<CallView>)
    requires
        calls.len() > 0,
    ensures
        content::canonical_calls(calls) == canonical::frame(calls[0].id) + (canonical::frame(
            calls[0].name,
        ) + (canonical::frame(calls[0].arguments) + content::canonical_calls(calls.skip(1)))),
    decreases calls.len(),
{
    let front = calls.drop_last();
    let c = calls.last();
    let own = canonical::frame(c.id) + canonical::frame(c.name) + canonical::frame(c.arguments);
    assert(content::canonical_calls(calls) =~= content::canonical_calls(front) + own);
    if calls.len() == 1 {
        assert(calls.skip(1) =~= Seq::<CallView>::empty());
        assert(content::canonical_calls(front) =~= Seq::<char>::empty());
        assert(content::canonical_calls(calls.skip(1)) =~= Seq::<char>::empty());
        assert(content::canonical_calls(calls) =~= canonical::frame(calls[0].id) + (
        canonical::frame(calls[0].name) + (canonical::frame(calls[0].arguments)
            + content::canonical_calls(calls.skip(1)))));
    } else {
        lemma_first_call(front);
        let rest = calls.skip(1);
        assert(rest.drop_last() =~= front.skip(1));
        assert(rest.last() == c);
        assert(content::canonical_calls(rest) =~= content::canonical_calls(front.skip(1)) + own);
        assert(content::canonical_calls(calls) =~= canonical::frame(calls[0].id) + (
        canonical::frame(calls[0].name) + (canonical::frame(calls[0].arguments)
            + content::canonical_calls(rest))));
    }
}

/// As many calls in canonical form, with whatever behind them, are told apart.
proof fn lemma_calls_told_apart(
    a: Seq<CallView>,
    x: Seq<char>,
    b: Seq<CallView>,
    y: Seq<char>,
)
    requires
        a.len() == b.len(),
        content::canonical_calls(a) + x == content::canonical_calls(b) + y,
    ensures
        a == b,
        x == y,
    decreases a.len(),
{
    if a.len() == 0 {
        assert(content::canonical_calls(a) + x =~= x);
        assert(content::canonical_calls(b) + y =~= y);
        assert(a =~= b);
    } else {
        lemma_first_call(a);
        lemma_first_call(b);
        let ra = content::canonical_calls(a.skip(1)) + x;
        let rb = content::canonical_calls(b.skip(1)) + y;
        let aa = canonical::frame(a[0].arguments) + ra;
        let ab = canonical::frame(b[0].arguments) + rb;
        let na = canonical::frame(a[0].name) + aa;
        let nb = canonical::frame(b[0].name) + ab;
        lemma_four(
            canonical::frame(a[0].id),
            canonical::frame(a[0].name),
            canonical::frame(a[0].arguments),
            content::canonical_calls(a.skip(1)),
            x,
        );
        lemma_four(
            canonical::frame(b[0].id),
            canonical::frame(b[0].name),
            canonical::frame(b[0].arguments),
            content::canonical_calls(b.skip(1)),
            y,
        );
        canonical::law_frames_are_unambiguous(a[0].id, na, b[0].id, nb);
        canonical::law_frames_are_unambiguous(a[0].name, aa, b[0].name, ab);
        canonical::law_frames_are_unambiguous(a[0].arguments, ra, b[0].arguments, rb);
        lemma_calls_told_apart(a.skip(1), x, b.skip(1), y);
        assert forall|i: int| 0 <= i < a.len() implies a[i] == b[i] by {
            if i > 0 {
                assert(a.skip(1)[i - 1] == b.skip(1)[i - 1]);
            }
        }
        assert(a =~= b);
    }
}

/// What stands behind the first frames of a message in canonical form.
spec fn behind_id(m: MessageView, x: Seq<char>) -> Seq<char> {
    canonical::frame(text::decimal(m.tool_calls.len())) + (content::canonical_calls(m.tool_calls)
        + (canonical::frame(text::decimal(m.content_blocks.len())) + (content::canonical_blocks(
        m.content_blocks,
    ) + x)))
}

proof fn lemma_message_frames(m: MessageView, x: Seq<char>)
    ensures
        content::canonical_message(m) + x == canonical::frame(m.role) + (canonical::frame(m.content)
            + (canonical::frame(content::or_empty(m.name)) + (canonical::frame(
            content::or_empty(m.tool_call_id),
        ) + behind_id(m, x)))),
{
    lemma_eight(
        canonical::frame(m.role),
        canonical::frame(m.content),
        canonical::frame(content::or_empty(m.name)),
        canonical::frame(content::or_empty(m.tool_call_id)),
        canonical::frame(text::decimal(m.tool_calls.len())),
        content::canonical_calls(m.tool_calls),
        canonical::frame(text::decimal(m.content_blocks.len())),
        content::canonical_blocks(m.content_blocks),
        x,
    );
}

/// Two messages in canonical form, with whatever behind them, agree only where their
/// roles, their texts, their names, the calls that they answer and all their own calls
/// agree; what follows agrees too where they have no blocks.
pub proof fn law_messages_are_told_apart(
    a: MessageView,
    x: Seq<char>,
    b: MessageView,
    y: Seq<char>,
)
    requires
        content::canonical_message(a) + x == content::canonical_message(b) + y,
    ensures
        a.role == b.role,
        a.content == b.content,
        content::or_empty(a.name) == content::or_empty(b.name),
        content::or_empty(a.tool_call_id) == content::or_empty(b.tool_call_id),
        a.tool_calls == b.tool_calls,
        a.content_blocks.len() == b.content_blocks.len(),
        a.content_blocks.len() == 0 ==> x == y,
{
    lemma_message_frames(a, x);
    lemma_message_frames(b, y);
    let ia = canonical::frame(content::or_empty(a.tool_call_id)) + behind_id(a, x);
    let ib = canonical::frame(content::or_empty(b.tool_call_id)) + behind_id(b, y);
    let na = canonical::frame(content::or_empty(a.name)) + ia;
    let nb = canonical::frame(content::or_empty(b.name)) + ib;
    let ca = canonical::frame(a.content) + na;
    let cb = canonical::frame(b.content) + nb;
    canonical::law_frames_are_unambiguous(a.role, ca, b.role, cb);
    canonical::law_frames_are_unambiguous(a.content, na, b.content, nb);
    canonical::law_frames_are_unambiguous(
        content::or_empty(a.name),
        ia,
        content::or_empty(b.name),
        ib,
    );
    canonical::law_frames_are_unambiguous(
        content::or_empty(a.tool_call_id),
        behind_id(a, x),
        content::or_empty(b.tool_call_id),
        behind_id(b, y),
    );
    let ta = content::canonical_blocks(a.content_blocks) + x;
    let tb = content::canonical_blocks(b.content_blocks) + y;
    let ba = canonical::frame(text::decimal(a.content_blocks.len())) + ta;
    let bb = canonical::frame(text::decimal(b.content_blocks.len())) + tb;
    canonical::law_frames_are_unambiguous(
        text::decimal(a.tool_calls.len()),
        content::canonical_calls(a.tool_calls) + ba,
        text::decimal(b.tool_calls.len()),
        content::canonical_calls(b.tool_calls) + bb,
    );
    json::lemma_decimal_value(a.tool_calls.len());
    json::lemma_decimal_value(b.tool_calls.len());
    lemma_calls_told_apart(a.tool_calls, ba, b.tool_calls, bb);
    canonical::law_frames_are_unambiguous(
        text::decimal(a.content_blocks.len()),
        ta,
        text::decimal(b.content_blocks.len()),
        tb,
    );
    json::lemma_decimal_value(a.content_blocks.len());
    json::lemma_decimal_value(b.content_blocks.len());
    if a.content_blocks.len() == 0 {
        assert(ta =~= x);
        assert(tb =~= y);
    }
}

proof fn lemma_first_message(messages: Seq<MessageView>)
    requires
        messages.len() > 0,
    ensures
        content::canonical_history(messages) == content::canonical_message(messages[0])
            + content::canonical_history(messages.skip(1)),
        content::canonical_history(messages).len() > 0,
    decreases messages.len(),
{
    let front = messages.drop_last();
    let rest = messages.skip(1);
    let last = content::canonical_message(messages.last());
    if messages.len() == 1 {
        assert(rest =~= Seq::<MessageView>::empty());
        assert(front =~= Seq::<MessageView>::empty());
        let none = Seq::<char>::empty();
        assert(content::canonical_history(front) == none);
        assert(content::canonical_history(rest) == none);
        lemma_empty_sides(last);
    } else {
        lemma_first_message(front);
        assert(rest.drop_last() =~= front.skip(1));
        lemma_regrouped(
            content::canonical_message(messages[0]),
            content::canonical_history(front.skip(1)),
            last,
        );
    }
    let tail = content::canonical_history(rest);
    lemma_message_frames(messages[0], tail);
    lemma_frame_is_some(
        messages[0].role,
        canonical::frame(messages[0].content) + (canonical::frame(
            content::or_empty(messages[0].name),
        ) + (canonical::frame(content::or_empty(messages[0].tool_call_id)) + behind_id(
            messages[0],
            tail,
        ))),
    );
}

proof fn lemma_empty_sides(s: Seq<char>)
    ensures
        Seq::<char>::empty() + s == s + Seq::<char>::empty(),
        s + Seq::<char>::empty() == s,
{
    assert(Seq::<char>::empty() + s =~= s);
    assert(s + Seq::<char>::empty() =~= s);
}

/// Two histories without blocks in canonical form agree only where they have as many
/// messages, and each says, answers and calls the same.
pub proof fn law_histories_are_told_apart(a: Seq<MessageView>, b: Seq<MessageView>)
    requires
        content::canonical_history(a) == content::canonical_history(b),
        forall|i: int| 0 <= i < a.len() ==> (#[trigger] a[i]).content_blocks.len() == 0,
        forall|i: int| 0 <= i < b.len() ==> (#[trigger] b[i]).content_blocks.len() == 0,
    ensures
        a.len() == b.len(),
        forall|i: int|
            0 <= i < a.len() ==> (#[trigger] a[i]).role == b[i].role && a[i].content
                == b[i].content && a[i].tool_calls == b[i].tool_calls && content::or_empty(
                a[i].tool_call_id,
            ) == content::or_empty(b[i].tool_call_id),
    decreases a.len(),
{
    if a.len() == 0 {
        if b.len() > 0 {
            lemma_first_message(b);
        }
    } else if b.len() == 0 {
        lemma_first_message(a);
    } else {
        lemma_first_message(a);
        lemma_first_message(b);
        let ra = a.skip(1);
        let rb = b.skip(1);
        law_messages_are_told_apart(
            a[0],
            content::canonical_history(ra),
            b[0],
            content::canonical_history(rb),
        );
        assert(forall|i: int| 0 <= i < ra.len() ==> ra[i] == a[i + 1]);
        assert(forall|i: int| 0 <= i < rb.len() ==> rb[i] == b[i + 1]);
        law_histories_are_told_apart(ra, rb);
        assert forall|i: int| 0 <= i < a.len() implies (#[trigger] a[i]).role == b[i].role
            && a[i].content == b[i].content && a[i].tool_calls == b[i].tool_calls
            && content::or_empty(a[i].tool_call_id) == content::or_empty(b[i].tool_call_id) by {
            if i > 0 {
                assert(ra[i - 1] == a[i]);
                assert(rb[i - 1] == b[i]);
            }
        }
    }
}

/// What a request is hashed as by its parts names its place, its model, its history
/// and how many tools it has: where the wholes agree, these agree.
pub proof fn law_parts_are_told_apart(
    namespace: Seq<char>,
    model: Seq<char>,
    messages: Seq<MessageView>,
    tools: Seq<Tree>,
    namespace2: Seq<char>,
    model2: Seq<char>,
    messages2: Seq<MessageView>,
    tools2: Seq<Tree>,
)
    requires
        identity::parts_identity(namespace, model, messages, tools) == identity::parts_identity(
            namespace2,
            model2,
            messages2,
            tools2,
        ),
    ensures
        namespace == namespace2,
        model == model2,
        content::canonical_history(messages) == content::canonical_history(messages2),
        tools.len() == tools2.len(),
{
    let ha = content::canonical_history(messages);
    let hb = content::canonical_history(messages2);
    let ta = identity::canonical_tools(tools);
    let tb = identity::canonical_tools(tools2);
    let na = canonical::frame(text::decimal(tools.len())) + ta;
    let nb = canonical::frame(text::decimal(tools2.len())) + tb;
    let fa = canonical::frame(ha) + na;
    let fb = canonical::frame(hb) + nb;
    let ma = canonical::frame(model) + fa;
    let mb = canonical::frame(model2) + fb;
    lemma_five(
        canonical::frame(namespace),
        canonical::frame(model),
        canonical::frame(ha),
        canonical::frame(text::decimal(tools.len())),
        ta,
    );
    lemma_five(
        canonical::frame(namespace2),
        canonical::frame(model2),
        canonical::frame(hb),
        canonical::frame(text::decimal(tools2.len())),
        tb,
    );
    canonical::law_frames_are_unambiguous(namespace, ma, namespace2, mb);
    canonical::law_frames_are_unambiguous(model, fa, model2, fb);
    canonical::law_frames_are_unambiguous(ha, na, hb, nb);
    canonical::law_frames_are_unambiguous(
        text::decimal(tools.len()),
        ta,
        text::decimal(tools2.len()),
        tb,
    );
    json::lemma_decimal_value(tools.len());
    json::lemma_decimal_value(tools2.len());
}

proof fn lemma_native_frames(
    kind: ProviderKind,
    model: Seq<char>,
    prefixes: ProviderRequestFingerprints,
)
    ensures
        identity::native_identity(kind, model, prefixes) == canonical::frame(
            identity::kind_name(kind),
        ) + (canonical::frame(model) + (canonical::frame("1.8-channel-facts"@) + (canonical::frame(
            "1"@,
        ) + (canonical::frame(identity::hex16(prefixes.system)) + (canonical::frame(
            identity::hex16(prefixes.tools),
        ) + Seq::<char>::empty()))))),
{
    let f = canonical::frame(identity::hex16(prefixes.tools));
    lemma_empty_sides(f);
    lemma_six(
        canonical::frame(identity::kind_name(kind)),
        canonical::frame(model),
        canonical::frame("1.8-channel-facts"@),
        canonical::frame("1"@),
        canonical::frame(identity::hex16(prefixes.system)),
        f,
    );
}

proof fn lemma_six(
    a: Seq<char>,
    b: Seq<char>,
    c: Seq<char>,
    d: Seq<char>,
    e: Seq<char>,
    f: Seq<char>,
)
    ensures
        a + b + c + d + e + f == a + (b + (c + (d + (e + f)))),
{
    lemma_regrouped(a + b + c + d, e, f);
    lemma_five(a, b, c, d, e + f);
}

/// What a provider's own cache key is made of names the wire, the model, the rules and
/// the tools: where the wholes agree, these agree.
pub proof fn law_native_identities_are_told_apart(
    kind: ProviderKind,
    model: Seq<char>,
    prefixes: ProviderRequestFingerprints,
    kind2: ProviderKind,
    model2: Seq<char>,
    prefixes2: ProviderRequestFingerprints,
)
    requires
        identity::native_identity(kind, model, prefixes) == identity::native_identity(
            kind2,
            model2,
            prefixes2,
        ),
    ensures
        identity::kind_name(kind) == identity::kind_name(kind2),
        model == model2,
        identity::hex16(prefixes.system) == identity::hex16(prefixes2.system),
        identity::hex16(prefixes.tools) == identity::hex16(prefixes2.tools),
{
    let none = Seq::<char>::empty();
    let ta = canonical::frame(identity::hex16(prefixes.tools)) + none;
    let tb = canonical::frame(identity::hex16(prefixes2.tools)) + none;
    let sa = canonical::frame(identity::hex16(prefixes.system)) + ta;
    let sb = canonical::frame(identity::hex16(prefixes2.system)) + tb;
    let va = canonical::frame("1"@) + sa;
    let vb = canonical::frame("1"@) + sb;
    let wa = canonical::frame("1.8-channel-facts"@) + va;
    let wb = canonical::frame("1.8-channel-facts"@) + vb;
    let ma = canonical::frame(model) + wa;
    let mb = canonical::frame(model2) + wb;
    lemma_native_frames(kind, model, prefixes);
    lemma_native_frames(kind2, model2, prefixes2);
    canonical::law_frames_are_unambiguous(
        identity::kind_name(kind),
        ma,
        identity::kind_name(kind2),
        mb,
    );
    canonical::law_frames_are_unambiguous(model, wa, model2, wb);
    canonical::law_frames_are_unambiguous("1.8-channel-facts"@, va, "1.8-channel-facts"@, vb);
    canonical::law_frames_are_unambiguous("1"@, sa, "1"@, sb);
    canonical::law_frames_are_unambiguous(
        identity::hex16(prefixes.system),
        ta,
        identity::hex16(prefixes2.system),
        tb,
    );
    canonical::law_frames_are_unambiguous(
        identity::hex16(prefixes.tools),
        none,
        identity::hex16(prefixes2.tools),
        none,
    );
}

/// Answers to different models, scopes or bodies are kept under different keys: where
/// two keys of one kind agree, the model agrees, and so do the digits of each of the
/// others.
pub proof fn law_response_keys_are_told_apart(
    kind: ProviderKind,
    a: (Seq<char>, u128, Seq<char>, Seq<(Seq<char>, Seq<char>)>, Seq<u8>),
    b: (Seq<char>, u128, Seq<char>, Seq<(Seq<char>, Seq<char>)>, Seq<u8>),
)
    requires
        identity::response_key(kind, a.0, a.1, a.2, a.3, a.4) == identity::response_key(
            kind,
            b.0,
            b.1,
            b.2,
            b.3,
            b.4,
        ),
    ensures
        a.0 == b.0,
        identity::hex32(a.1) == identity::hex32(b.1),
        identity::hex16(canonical::text_hash(endpoint::endpoint_text(a.2))) == identity::hex16(
            canonical::text_hash(endpoint::endpoint_text(b.2)),
        ),
        identity::hex16(canonical::text_hash(endpoint::headers_text(a.3))) == identity::hex16(
            canonical::text_hash(endpoint::headers_text(b.3)),
        ),
        identity::hex16(crate::hash::fnv(a.4)) == identity::hex16(crate::hash::fnv(b.4)),
{
    reveal_strlit(":");
    let lead = "slim-cache-v4:"@ + identity::kind_name(kind) + ":"@;
    let whole = identity::response_key(kind, a.0, a.1, a.2, a.3, a.4);
    let n = whole.len() as int;
    let first = lemma_key_parts(kind, a);
    let second = lemma_key_parts(kind, b);
    assert(a.0 =~= whole.subrange(lead.len() as int, n - 84));
    assert(b.0 =~= whole.subrange(lead.len() as int, n - 84));
}

proof fn lemma_key_parts(
    kind: ProviderKind,
    a: (Seq<char>, u128, Seq<char>, Seq<(Seq<char>, Seq<char>)>, Seq<u8>),
) -> (n: int)
    ensures
        ({
            let whole = identity::response_key(kind, a.0, a.1, a.2, a.3, a.4);
            let lead = "slim-cache-v4:"@ + identity::kind_name(kind) + ":"@;
            &&& n == whole.len()
            &&& n == lead.len() + a.0.len() + 84
            &&& whole.subrange(lead.len() as int, n - 84) == a.0
            &&& whole.subrange(n - 83, n - 67) == identity::hex16(
                canonical::text_hash(endpoint::endpoint_text(a.2)),
            )
            &&& whole.subrange(n - 66, n - 50) == identity::hex16(
                canonical::text_hash(endpoint::headers_text(a.3)),
            )
            &&& whole.subrange(n - 49, n - 17) == identity::hex32(a.1)
            &&& whole.subrange(n - 16, n) == identity::hex16(crate::hash::fnv(a.4))
        }),
{
    reveal_strlit(":");
    let whole = identity::response_key(kind, a.0, a.1, a.2, a.3, a.4);
    let lead = "slim-cache-v4:"@ + identity::kind_name(kind) + ":"@;
    let e = identity::hex16(canonical::text_hash(endpoint::endpoint_text(a.2)));
    let h = identity::hex16(canonical::text_hash(endpoint::headers_text(a.3)));
    let s = identity::hex32(a.1);
    let f = identity::hex16(crate::hash::fnv(a.4));
    let n = whole.len() as int;
    assert(e.len() == 16 && h.len() == 16 && s.len() == 32 && f.len() == 16);
    assert(whole.subrange(lead.len() as int, n - 84) =~= a.0);
    assert(whole.subrange(n - 83, n - 67) =~= e);
    assert(whole.subrange(n - 66, n - 50) =~= h);
    assert(whole.subrange(n - 49, n - 17) =~= s);
    assert(whole.subrange(n - 16, n) =~= f);
    n
}

/// A message counts once and where it belongs: rules as rules, a tool's result as a
/// result, anything else as history; the others stay as they were.
pub proof fn law_messages_count_where_they_belong(
    before: ProviderRequestComponents,
    item: Tree,
)
    requires
        before.system_bytes + accounting::value_bytes(item) <= u64::MAX,
        before.tool_result_bytes + accounting::value_bytes(item) <= u64::MAX,
        before.history_bytes + accounting::value_bytes(item) <= u64::MAX,
    ensures
        ({
            let after = before.with_item(item, true);
            let role = item.text_at("role"@);
            let bytes = accounting::value_bytes(item);
            &&& after.tool_schema_bytes == before.tool_schema_bytes
            &&& after.system_bytes + after.tool_result_bytes + after.history_bytes
                == before.system_bytes + before.tool_result_bytes + before.history_bytes + bytes
            &&& role == Some("system"@) || role == Some("developer"@) ==> after.system_bytes
                == before.system_bytes + bytes
            &&& role == Some("tool"@) ==> after.tool_result_bytes == before.tool_result_bytes
                + bytes
            &&& role == Some("assistant"@) && item.items_at("content"@) is None && item.get(
                "type"@,
            ) is None ==> after.history_bytes == before.history_bytes + bytes
        }),
{
    reveal_strlit("system");
    reveal_strlit("developer");
    reveal_strlit("tool");
    reveal_strlit("assistant");
    assert("tool"@.len() != "system"@.len());
    assert("tool"@.len() != "developer"@.len());
    assert("tool"@.len() != "assistant"@.len());
    assert("assistant"@[0] != "developer"@[0]);
    assert("assistant"@.len() != "system"@.len());
}

} // verus!
