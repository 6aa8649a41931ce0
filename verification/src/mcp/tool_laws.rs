//! What the library makes of a server's messages, held against the JSON that was
//! sent: each tool as it was described, each page as far as it is taken, each
//! response as it was given.
use vstd::prelude::*;
use vstd::string::*;

use crate::json;
use crate::json::Tree;
use crate::mcp::rpc;
use crate::mcp::rpc::InboundView;
use crate::mcp::spec;
use crate::mcp::spec::{McpErrorView, ToolView};
use crate::mcp::tools;
use crate::mcp::tools::PagesView;
use crate::text;

verus! {

/// The keys of a message are told apart.
proof fn lemma_message_keys()
    ensures
        "jsonrpc"@ != "id"@,
        "jsonrpc"@ != "method"@,
        "jsonrpc"@ != "params"@,
        "jsonrpc"@ != "error"@,
        "jsonrpc"@ != "code"@,
        "jsonrpc"@ != "message"@,
        "jsonrpc"@ != "result"@,
        "id"@ != "method"@,
        "id"@ != "params"@,
        "id"@ != "error"@,
        "id"@ != "code"@,
        "id"@ != "message"@,
        "id"@ != "result"@,
        "method"@ != "params"@,
        "method"@ != "error"@,
        "method"@ != "code"@,
        "method"@ != "message"@,
        "method"@ != "result"@,
        "params"@ != "error"@,
        "params"@ != "code"@,
        "params"@ != "message"@,
        "params"@ != "result"@,
        "error"@ != "code"@,
        "error"@ != "message"@,
        "error"@ != "result"@,
        "code"@ != "message"@,
        "code"@ != "result"@,
        "message"@ != "result"@,
{
    reveal_strlit("jsonrpc");
    reveal_strlit("id");
    reveal_strlit("method");
    reveal_strlit("params");
    reveal_strlit("error");
    reveal_strlit("code");
    reveal_strlit("message");
    reveal_strlit("result");
    assert("jsonrpc"@.len() != "id"@.len());
    assert("jsonrpc"@.len() != "method"@.len());
    assert("jsonrpc"@.len() != "params"@.len());
    assert("jsonrpc"@.len() != "error"@.len());
    assert("jsonrpc"@.len() != "code"@.len());
    assert("jsonrpc"@[0] != "message"@[0]);
    assert("jsonrpc"@.len() != "result"@.len());
    assert("id"@.len() != "method"@.len());
    assert("id"@.len() != "params"@.len());
    assert("id"@.len() != "error"@.len());
    assert("id"@.len() != "code"@.len());
    assert("id"@.len() != "message"@.len());
    assert("id"@.len() != "result"@.len());
    assert("method"@[0] != "params"@[0]);
    assert("method"@.len() != "error"@.len());
    assert("method"@.len() != "code"@.len());
    assert("method"@.len() != "message"@.len());
    assert("method"@[0] != "result"@[0]);
    assert("params"@.len() != "error"@.len());
    assert("params"@.len() != "code"@.len());
    assert("params"@.len() != "message"@.len());
    assert("params"@[0] != "result"@[0]);
    assert("error"@.len() != "code"@.len());
    assert("error"@.len() != "message"@.len());
    assert("error"@.len() != "result"@.len());
    assert("code"@.len() != "message"@.len());
    assert("code"@.len() != "result"@.len());
    assert("message"@.len() != "result"@.len());
}
/// The keys of a greeting are told apart.
proof fn lemma_greeting_keys()
    ensures
        "protocolVersion"@ != "capabilities"@,
        "protocolVersion"@ != "clientInfo"@,
        "protocolVersion"@ != "name"@,
        "protocolVersion"@ != "version"@,
        "capabilities"@ != "clientInfo"@,
        "capabilities"@ != "name"@,
        "capabilities"@ != "version"@,
        "clientInfo"@ != "name"@,
        "clientInfo"@ != "version"@,
        "name"@ != "version"@,
{
    reveal_strlit("protocolVersion");
    reveal_strlit("capabilities");
    reveal_strlit("clientInfo");
    reveal_strlit("name");
    reveal_strlit("version");
    assert("protocolVersion"@.len() != "capabilities"@.len());
    assert("protocolVersion"@.len() != "clientInfo"@.len());
    assert("protocolVersion"@.len() != "name"@.len());
    assert("protocolVersion"@.len() != "version"@.len());
    assert("capabilities"@.len() != "clientInfo"@.len());
    assert("capabilities"@.len() != "name"@.len());
    assert("capabilities"@.len() != "version"@.len());
    assert("clientInfo"@.len() != "name"@.len());
    assert("clientInfo"@.len() != "version"@.len());
    assert("name"@.len() != "version"@.len());
}
/// Whether a tool is what an entry describes: with its name, its description and
/// its schema, and with the schema of any object only where the entry has none.
pub open spec fn described_by(tool: ToolView, entry: Tree) -> bool {
    &&& entry.text_at("name"@) == Some(tool.name)
    &&& entry.text_at("description"@) == tool.description
    &&& entry.get("inputSchema"@) matches Some(schema) ==> tool.schema == schema
    &&& entry.get("inputSchema"@) is None ==> tool.schema is Object && (forall|key: Seq<char>|
        #[trigger] tool.schema.get(key) == (if key == "type"@ {
            Some(Tree::Text("object"@))
        } else {
            None
        }))
}

/// Every entry that names its tool is read as it was sent; no other is read.
pub proof fn law_entries_are_read_as_sent(entry: Tree)
    ensures
        match tools::tool_of(entry) {
            Some(tool) => described_by(tool, entry),
            None => entry.text_at("name"@) is None,
        },
{
    broadcast use json::lemma_key_set;

}

/// How many entries of a page name their tool.
pub open spec fn named_entries(page: Seq<Tree>) -> nat
    decreases page.len(),
{
    if page.len() == 0 {
        0
    } else {
        named_entries(page.drop_last()) + if page.last().text_at("name"@) is Some {
            1nat
        } else {
            0nat
        }
    }
}

/// A page adds as many tools as it names, up to the bound.
pub proof fn law_a_page_adds_what_it_names(tools: Seq<ToolView>, page: Seq<Tree>)
    requires
        tools.len() <= tools::MAX_TOOLS_PER_SERVER,
    ensures
        tools::with_page(tools, page).len() == (if tools.len() + named_entries(page)
            <= tools::MAX_TOOLS_PER_SERVER {
            tools.len() + named_entries(page)
        } else {
            tools::MAX_TOOLS_PER_SERVER as nat
        }),
    decreases page.len(),
{
    if page.len() > 0 {
        law_a_page_adds_what_it_names(tools, page.drop_last());
    }
}

/// Every entry that names its tool is listed behind those named before it, as it
/// was sent, unless the bound was reached; the tools listed before stay.
pub proof fn law_listed_tools_are_as_sent(tools: Seq<ToolView>, page: Seq<Tree>, i: int)
    requires
        tools.len() <= tools::MAX_TOOLS_PER_SERVER,
        0 <= i < page.len(),
        page[i].text_at("name"@) is Some,
        tools.len() + named_entries(page.take(i)) < tools::MAX_TOOLS_PER_SERVER,
    ensures
        tools.is_prefix_of(tools::with_page(tools, page)),
        ({
            let at = tools.len() + named_entries(page.take(i));
            at < tools::with_page(tools, page).len() && described_by(
                tools::with_page(tools, page)[at as int],
                page[i],
            )
        }),
    decreases page.len(),
{
    tools::law_listing_is_bounded(tools, page);
    let front = page.drop_last();
    law_a_page_adds_what_it_names(tools, front);
    if i == page.len() - 1 {
        assert(page.take(i) =~= front);
        law_entries_are_read_as_sent(page[i]);
    } else {
        assert(front.take(i) =~= page.take(i));
        law_listed_tools_are_as_sent(tools, front, i);
    }
}

/// A listing goes on where the server named a further page and there is room for
/// more, and then it asks for that very page; else it ends.
pub proof fn law_listing_follows_the_cursor(
    view: PagesView,
    page: Seq<Tree>,
    next: Option<Seq<char>>,
)
    ensures
        ({
            let after = view.after(page, next);
            &&& after.pages == view.pages + 1
            &&& next is None ==> after.done
            &&& after.tools.len() >= 256 ==> after.done
            &&& after.pages >= 8 ==> after.done
            &&& next matches Some(cursor) ==> after.tools.len() < 256 ==> after.params().text_at(
                "cursor"@,
            ) == Some(cursor) && after.done == (after.pages >= 8)
        }),
        view.cursor is None ==> forall|key: Seq<char>|
            (#[trigger] view.params().get(key)) is None,
{
    broadcast use json::lemma_key_set;

}

/// A tool is found by its name, the first of that name; where none is found, no
/// tool has it.
pub proof fn law_named_tools_are_found(tools: Seq<ToolView>, name: Seq<char>, from: int)
    requires
        0 <= from <= tools.len(),
    ensures
        match tools::tool_named(tools, name, from) {
            Some(tool) => exists|i: int|
                from <= i < tools.len() && #[trigger] tools[i] == tool && tool.name == name
                    && forall|j: int| from <= j < i ==> (#[trigger] tools[j]).name != name,
            None => forall|j: int| from <= j < tools.len() ==> (#[trigger] tools[j]).name != name,
        },
    decreases tools.len() - from,
{
    if from < tools.len() {
        if tools[from].name != name {
            law_named_tools_are_found(tools, name, from + 1);
            match tools::tool_named(tools, name, from) {
                Some(tool) => {
                    let i = choose|i: int|
                        from + 1 <= i < tools.len() && #[trigger] tools[i] == tool && tool.name
                            == name && forall|j: int|
                            from + 1 <= j < i ==> (#[trigger] tools[j]).name != name;
                    assert(tools[i] == tool);
                },
                None => {},
            }
        } else {
            assert(tools[from] == tools::tool_named(tools, name, from)->Some_0);
        }
    }
}

/// A rendered schema is shown whole where it keeps within its bound, else its start
/// that does, and a word that says so.
pub proof fn law_schemas_are_shown_as_far_as_they_fit(rendered: Seq<char>)
    ensures
        text::byte_len(rendered) <= 16_384 ==> tools::bounded_schema(rendered) == rendered,
        text::byte_len(rendered) > 16_384 ==> exists|n: int|
            0 <= n <= rendered.len() && tools::bounded_schema(rendered) == #[trigger] rendered.take(
                n,
            ) + "…(truncated)"@ && 16_380 < text::byte_len(rendered.take(n)) <= 16_384,
{
    text::lemma_fitting_head(rendered, 16_384);
    if text::byte_len(rendered) > 16_384 {
        let n = text::fitting_head(rendered, 16_384) as int;
        assert(text::head_within(rendered, 16_384) == rendered.take(n));
        if n == rendered.len() {
            assert(rendered.take(n) =~= rendered);
        }
    }
}

/// A page of a list shows the next tools without a gap, and at least one where any
/// is left: one page after the other shows them all.
pub proof fn law_pages_of_a_list_show_every_tool(all: Seq<ToolView>, offset: int)
    requires
        0 <= offset <= all.len(),
    ensures
        ({
            let shown = tools::shown_tools(all, offset);
            &&& shown + all.skip(offset + shown.len()) == all.skip(offset)
            &&& shown.len() <= 32
            &&& offset < all.len() ==> shown.len() > 0
        }),
{
    let shown = tools::shown_tools(all, offset);
    assert(shown + all.skip(offset + shown.len()) =~= all.skip(offset));
}

proof fn lemma_separator(parts: Seq<Seq<char>>, sep: Seq<char>, k: int)
    requires
        0 < k < parts.len(),
    ensures
        text::occurs_at(text::join(parts, sep), sep, text::part_start(parts, sep, k) - sep.len()),
    decreases parts.len(),
{
    let front = parts.drop_last();
    let start = text::part_start(parts, sep, k) - sep.len();
    let end = start + sep.len();
    let whole = text::join(parts, sep);
    if k == parts.len() - 1 {
        assert(parts.take(k) =~= front);
        assert(whole.subrange(start, end) =~= sep);
    } else {
        lemma_separator(front, sep, k);
        assert(front.take(k) =~= parts.take(k));
        assert(whole.subrange(start, end) =~= text::join(front, sep).subrange(start, end));
    }
}

/// Every tool of a page of a list is shown, its name at the start of its line and,
/// where it has a description, a dash behind it.
pub proof fn law_listed_tools_are_shown_by_name(all: Seq<ToolView>, offset: int, k: int) -> (at:
    int)
    requires
        0 <= offset,
        0 <= k < 32,
        offset + k < all.len(),
    ensures
        text::occurs_at(tools::list_text(all, offset), all[offset + k].name, at),
        at == 0 || text::occurs_at(tools::list_text(all, offset), "\n"@, at - 1),
        all[offset + k].description is Some ==> text::occurs_at(
            tools::list_text(all, offset),
            all[offset + k].name + " — "@,
            at,
        ),
{
    let shown = tools::tool_lines(tools::shown_tools(all, offset));
    let tool = all[offset + k];
    assert(tools::shown_tools(all, offset)[k] == tool);
    assert(shown[k] == tools::tool_line(tool));
    let next = offset + shown.len();
    let parts = if next < all.len() {
        shown.push(
            "… "@ + text::decimal((all.len() - next) as nat)
                + " more tools (call again with \"offset\": "@ + text::decimal(next as nat) + ")"@,
        )
    } else {
        shown
    };
    let whole = tools::list_text(all, offset);
    assert(whole == text::join(parts, "\n"@));
    assert(parts[k] == shown[k]);
    text::law_joined_parts_are_there(parts, "\n"@, k);
    let at = text::part_start(parts, "\n"@, k);
    let line = whole.subrange(at, at + parts[k].len() as int);
    assert(line == parts[k]);
    assert(tool.name =~= parts[k].subrange(0, tool.name.len() as int));
    assert(whole.subrange(at, at + tool.name.len() as int) =~= line.subrange(
        0,
        tool.name.len() as int,
    ));
    if tool.description is Some {
        let opening = tool.name + " — "@;
        assert(opening =~= parts[k].subrange(0, opening.len() as int));
        assert(whole.subrange(at, at + opening.len() as int) =~= line.subrange(
            0,
            opening.len() as int,
        ));
    }
    if k > 0 {
        reveal_strlit("\n");
        lemma_separator(parts, "\n"@, k);
    }
    at
}

/// A request carries its id, its method and its parameters.
pub proof fn law_requests_say_what_is_asked(id: u64, method: Seq<char>, params: Tree)
    ensures
        ({
            let message = rpc::request_tree(id, method, params);
            &&& message.text_at("jsonrpc"@) == Some("2.0"@)
            &&& message.unsigned_at("id"@) == Some(id)
            &&& message.text_at("method"@) == Some(method)
            &&& message.get("params"@) == Some(params)
        }),
{
    broadcast use json::lemma_key_set;

    lemma_message_keys();
    json::lemma_decimal_value(id as nat);
}

/// A notification carries its method and its parameters, and no id that would ask
/// for a response.
pub proof fn law_notifications_ask_for_nothing(method: Seq<char>, params: Tree)
    ensures
        ({
            let message = rpc::notification_tree(method, params);
            &&& message.text_at("jsonrpc"@) == Some("2.0"@)
            &&& message.text_at("method"@) == Some(method)
            &&& message.get("params"@) == Some(params)
            &&& message.get("id"@) is None
        }),
{
    broadcast use json::lemma_key_set;

    lemma_message_keys();
}

/// A request of the server is refused under its own id with an error, and with
/// nothing that could pass for a result.
pub proof fn law_refusals_name_the_request(id: Tree)
    ensures
        ({
            let message = rpc::rejection_tree(id);
            &&& message.text_at("jsonrpc"@) == Some("2.0"@)
            &&& message.get("id"@) == Some(id)
            &&& json::under(message, "error"@, "code"@) == Some(Tree::Number("-32601"@))
            &&& json::under(message, "error"@, "message"@) == Some(Tree::Text("unsupported"@))
            &&& message.get("result"@) is None
            &&& message.get("method"@) is None
        }),
{
    broadcast use json::lemma_key_set;

    lemma_message_keys();
}

/// A response's result is handed on as it was given; an error of the server is
/// handed on with its code and its words, whatever else the response holds.
pub proof fn law_responses_are_handed_on(message: Tree)
    ensures
        message.get("error"@) is None ==> match message.get("result"@) {
            Some(result) => rpc::result_of(message) == Ok::<Tree, McpErrorView>(result),
            None => rpc::result_of(message) matches Err(McpErrorView::Protocol(_)),
        },
        message.get("error"@) matches Some(error) ==> (rpc::result_of(message) matches Err(
            McpErrorView::Server { code, message: words },
        ) && (error.signed_at("code"@) matches Some(n) ==> code == n) && (error.text_at(
            "message"@,
        ) matches Some(given) ==> words == spec::bounded_text(given))),
{
}

/// Whoever waits for a response gets the one with its id, and takes neither a
/// request of the server nor a response to another for it.
pub proof fn law_only_the_own_response_is_taken(message: Tree, id: u64)
    ensures
        rpc::classified(message, id) is Response <==> message.unsigned_at("id"@) == Some(id)
            && message.get("method"@) is None,
        rpc::classified(message, id) matches InboundView::Response(result) ==> result
            == rpc::result_of(message),
        rpc::classified(message, id) matches InboundView::ServerRequest(given) ==> message.get(
            "id"@,
        ) == Some(given),
        rpc::classified(message, id) is ServerRequest <==> message.get("id"@) is Some
            && message.get("method"@) is Some,
        rpc::classified(message, id) is ToolsChanged <==> message.get("id"@) is None
            && message.text_at("method"@) == Some("notifications/tools/list_changed"@),
{
}

/// The greeting names the protocol, the library and its version.
pub proof fn law_the_greeting_names_the_library(version: Seq<char>)
    ensures
        ({
            let greeting = tools::initialize_tree(version);
            &&& greeting.text_at("protocolVersion"@) == Some(spec::MCP_PROTOCOL_VERSION@)
            &&& greeting.get("capabilities"@) == Some(json::empty_object())
            &&& json::under(greeting, "clientInfo"@, "name"@) == Some(Tree::Text("slim"@))
            &&& json::under(greeting, "clientInfo"@, "version"@) == Some(Tree::Text(version))
        }),
{
    broadcast use json::lemma_key_set;

    lemma_greeting_keys();
}

} // verus!
