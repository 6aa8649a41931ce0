//! The tools of a server: fetching them page by page, and showing them.
use vstd::prelude::*;
use vstd::string::*;

use crate::json;
use crate::json::{Json, Tree};
use crate::mcp::spec;
use crate::mcp::spec::{McpError, McpErrorView, McpToolSummary, ToolView};
use crate::provider::message;
use crate::text;

verus! {

pub const MAX_TOOLS_PER_SERVER: usize = 256;

pub const MAX_LIST_TOOLS_PER_SERVER: usize = 32;

pub const MAX_DESCRIBE_BYTES: usize = 16_384;

pub const MAX_TOOLS_PAGES: usize = 8;

/// Most characters of a description in a list.
pub const SHORT_DESCRIPTION_CHARS: usize = 80;

/// The tool that an entry of a page describes; nothing without a name.
pub open spec fn tool_of(entry: Tree) -> Option<ToolView> {
    match entry.text_at("name"@) {
        None => None,
        Some(name) => Some(
            ToolView {
                name,
                description: entry.text_at("description"@),
                schema: match entry.get("inputSchema"@) {
                    Some(schema) => schema,
                    None => json::empty_object().with("type"@, Tree::Text("object"@)),
                },
            },
        ),
    }
}

/// The tools so far with those of a page, up to the bound.
pub open spec fn with_page(tools: Seq<ToolView>, page: Seq<Tree>) -> Seq<ToolView>
    decreases page.len(),
{
    if page.len() == 0 {
        tools
    } else {
        let before = with_page(tools, page.drop_last());
        match tool_of(page.last()) {
            Some(tool) => if before.len() < MAX_TOOLS_PER_SERVER {
                before.push(tool)
            } else {
                before
            },
            None => before,
        }
    }
}

/// A page loses none of the tools so far and never takes them past the bound.
pub proof fn law_listing_is_bounded(tools: Seq<ToolView>, page: Seq<Tree>)
    ensures
        tools.is_prefix_of(with_page(tools, page)),
        tools.len() <= MAX_TOOLS_PER_SERVER ==> with_page(tools, page).len()
            <= MAX_TOOLS_PER_SERVER,
    decreases page.len(),
{
    if page.len() > 0 {
        law_listing_is_bounded(tools, page.drop_last());
    }
}

proof fn lemma_full_page(tools: Seq<ToolView>, page: Seq<Tree>, k: int)
    requires
        0 <= k <= page.len(),
        with_page(tools, page.take(k)).len() >= MAX_TOOLS_PER_SERVER,
    ensures
        with_page(tools, page) == with_page(tools, page.take(k)),
    decreases page.len() - k,
{
    if k < page.len() {
        assert(page.take(k + 1).drop_last() =~= page.take(k));
        lemma_full_page(tools, page, k + 1);
    } else {
        assert(page.take(k) =~= page);
    }
}

fn read_tool(entry: &Json) -> (r: Option<McpToolSummary>)
    ensures
        match r {
            Some(tool) => tool_of(entry@) == Some(tool@),
            None => tool_of(entry@) is None,
        },
{
    match entry.str_at("name") {
        None => None,
        Some(name) => {
            let description = match entry.str_at("description") {
                Some(words) => Some(words.to_owned()),
                None => None,
            };
            let schema = match entry.get("inputSchema") {
                Some(schema) => schema.copy(),
                None => Json::object().with("type", Json::string("object")),
            };
            Some(McpToolSummary { name: name.to_owned(), description, schema })
        },
    }
}

/// The state of a listing: the tools so far, the pages read, and where the next
/// page begins.
#[verifier::ext_equal]
pub struct PagesView {
    pub tools: Seq<ToolView>,
    pub pages: nat,
    pub cursor: Option<Seq<char>>,
    pub done: bool,
}

impl PagesView {
    /// The listing after a page that can be read.
    pub open spec fn after(self, page: Seq<Tree>, next: Option<Seq<char>>) -> PagesView {
        let tools = with_page(self.tools, page);
        let goes_on = next is Some && tools.len() < MAX_TOOLS_PER_SERVER;
        PagesView {
            tools,
            pages: self.pages + 1,
            cursor: if goes_on {
                next
            } else {
                self.cursor
            },
            done: !goes_on || self.pages + 1 >= MAX_TOOLS_PAGES,
        }
    }

    /// What a request for the next page says.
    pub open spec fn params(self) -> Tree {
        match self.cursor {
            None => json::empty_object(),
            Some(cursor) => json::empty_object().with("cursor"@, Tree::Text(cursor)),
        }
    }
}

/// A listing of a server's tools. It ends where the server names no further
/// page, at a number of pages, or at a number of tools.
pub struct ToolPages {
    tools: Vec<McpToolSummary>,
    pages: usize,
    cursor: Option<String>,
    done: bool,
}

impl View for ToolPages {
    type V = PagesView;

    closed spec fn view(&self) -> PagesView {
        PagesView {
            tools: spec::tool_views(self.tools@),
            pages: self.pages as nat,
            cursor: message::opt_text(self.cursor),
            done: self.done,
        }
    }
}

impl ToolPages {
    #[verifier::type_invariant]
    spec fn inv(self) -> bool {
        &&& self.tools@.len() <= MAX_TOOLS_PER_SERVER
        &&& self.pages <= MAX_TOOLS_PAGES
        &&& !self.done ==> self.pages < MAX_TOOLS_PAGES
    }

    pub fn new() -> (r: ToolPages)
        ensures
            r@ == (PagesView { tools: Seq::empty(), pages: 0, cursor: None, done: false }),
    {
        let tools: Vec<McpToolSummary> = Vec::new();
        assert(spec::tool_views(tools@) =~= Seq::empty());
        ToolPages { tools, pages: 0, cursor: None, done: false }
    }

    /// What to ask for next; nothing once the listing is complete.
    pub fn next_params(&self) -> (r: Option<Json>)
        ensures
            match r {
                Some(params) => !self@.done && params@ == self@.params(),
                None => self@.done,
            },
    {
        if self.done {
            return None;
        }
        match &self.cursor {
            None => Some(Json::object()),
            Some(cursor) => Some(Json::object().with("cursor", Json::string(cursor.as_str()))),
        }
    }

    /// Takes a page in.
    pub fn accept(self, response: &Json) -> (r: Result<ToolPages, McpError>)
        requires
            !self@.done,
        ensures
            match response@.items_at("tools"@) {
                None => r matches Err(error) && error@ == McpErrorView::Protocol(
                    "tools/list missing tools array"@,
                ),
                Some(page) => r matches Ok(after) && after@ == self@.after(
                    page,
                    response@.text_at("nextCursor"@),
                ),
            },
    {
        proof {
            use_type_invariant(&self);
        }
        let entries = match response.array_at("tools") {
            None => {
                return Err(McpError::protocol("tools/list missing tools array"));
            },
            Some(entries) => entries,
        };
        let ghost page = json::trees(entries@);
        let ghost start = spec::tool_views(self.tools@);
        let mut tools = self.tools;
        let pages: usize = self.pages + 1;
        let mut i: usize = 0;
        assert(page.take(0) =~= Seq::empty());
        assert(page.take(page.len() as int) =~= page);
        while i < entries.len()
            invariant
                i <= entries.len(),
                page == json::trees(entries@),
                page.take(entries.len() as int) == page,
                start.len() <= MAX_TOOLS_PER_SERVER,
                spec::tool_views(tools@) == with_page(start, page.take(i as int)),
                tools@.len() <= MAX_TOOLS_PER_SERVER,
            ensures
                spec::tool_views(tools@) == with_page(start, page),
                tools@.len() <= MAX_TOOLS_PER_SERVER,
            decreases entries.len() - i,
        {
            if tools.len() >= MAX_TOOLS_PER_SERVER {
                proof {
                    lemma_full_page(start, page, i as int);
                }
                break;
            }
            assert(page.take(i + 1).drop_last() =~= page.take(i as int));
            assert(page.take(i + 1).last() == entries@[i as int]@);
            match read_tool(&entries[i]) {
                None => {},
                Some(tool) => {
                    let ghost done = tools@;
                    tools.push(tool);
                    assert(spec::tool_views(tools@) =~= spec::tool_views(done).push(tool@));
                },
            }
            i = i + 1;
        }
        let next = response.str_at("nextCursor");
        let (cursor, goes_on) = match next {
            Some(next) => if tools.len() < MAX_TOOLS_PER_SERVER {
                (Some(next.to_owned()), true)
            } else {
                (self.cursor, false)
            },
            None => (self.cursor, false),
        };
        let done = !goes_on || pages >= MAX_TOOLS_PAGES;
        Ok(ToolPages { tools, pages, cursor, done })
    }

    /// The tools of a complete listing.
    pub fn into_tools(self) -> (r: Vec<McpToolSummary>)
        ensures
            spec::tool_views(r@) == self@.tools,
            r@.len() <= MAX_TOOLS_PER_SERVER,
    {
        proof {
            use_type_invariant(&self);
        }
        self.tools
    }
}

/// A description in short: its first line, cut.
pub open spec fn short_description(description: Seq<char>) -> Seq<char> {
    let lines = text::lines(description);
    let first = if lines.len() > 0 {
        lines[0]
    } else {
        Seq::empty()
    };
    if first.len() > SHORT_DESCRIPTION_CHARS {
        first.take(SHORT_DESCRIPTION_CHARS as int) + "…"@
    } else {
        first
    }
}

/// A tool in one line.
pub open spec fn tool_line(tool: ToolView) -> Seq<char> {
    match tool.description {
        Some(description) => tool.name + " — "@ + short_description(description),
        None => tool.name,
    }
}

pub open spec fn tool_lines(tools: Seq<ToolView>) -> Seq<Seq<char>> {
    tools.map_values(|t: ToolView| tool_line(t))
}

/// The tools of one page of a list, from `offset` on.
pub open spec fn shown_tools(tools: Seq<ToolView>, offset: int) -> Seq<ToolView> {
    if offset >= tools.len() {
        Seq::empty()
    } else if tools.len() - offset <= MAX_LIST_TOOLS_PER_SERVER {
        tools.skip(offset)
    } else {
        tools.subrange(offset, offset + MAX_LIST_TOOLS_PER_SERVER)
    }
}

/// One page of a list: its tools, and how to ask for the others. The line about
/// the others does not count toward the page.
pub open spec fn list_text(tools: Seq<ToolView>, offset: int) -> Seq<char> {
    let shown = tool_lines(shown_tools(tools, offset));
    let next = offset + shown.len();
    if next < tools.len() {
        text::join(
            shown.push(
                "… "@ + text::decimal((tools.len() - next) as nat)
                    + " more tools (call again with \"offset\": "@ + text::decimal(next as nat)
                    + ")"@,
            ),
            "\n"@,
        )
    } else if shown.len() > 0 {
        text::join(shown, "\n"@)
    } else if offset == 0 {
        "(no tools)"@
    } else {
        "(no tools at offset "@ + text::decimal(offset as nat) + "; "@ + text::decimal(tools.len())
            + " total)"@
    }
}

fn short_of(description: &str) -> (r: String)
    ensures
        r@ == short_description(description@),
{
    let lines = text::lines_of(description);
    let first = if lines.len() > 0 {
        lines[0].clone()
    } else {
        String::new()
    };
    proof {
        if lines@.len() > 0 {
            assert(text::texts(lines@)[0] == first@);
        } else {
            assert(text::texts(lines@).len() == 0);
            assert(first@ =~= Seq::<char>::empty());
        }
    }
    let chars = text::chars_of(first.as_str());
    if chars.len() > SHORT_DESCRIPTION_CHARS {
        let mut out = text::string_of(&chars, 0, SHORT_DESCRIPTION_CHARS);
        assert(out@ =~= first@.take(SHORT_DESCRIPTION_CHARS as int));
        out.append("…");
        out
    } else {
        first
    }
}

fn line_of(tool: &McpToolSummary) -> (r: String)
    ensures
        r@ == tool_line(tool@),
{
    let mut out = tool.name.clone();
    match &tool.description {
        Some(description) => {
            out.append(" — ");
            out.append(short_of(description.as_str()).as_str());
        },
        None => {},
    }
    out
}

/// One page of a server's tools, for the model.
pub fn list_tools_text(tools: &Vec<McpToolSummary>, offset: usize) -> (r: String)
    ensures
        r@ == list_text(spec::tool_views(tools@), offset as int),
{
    let ghost all = spec::tool_views(tools@);
    let ghost shown = tool_lines(shown_tools(all, offset as int));
    let count: usize = tools.len();
    let end: usize = if offset >= count {
        offset
    } else if count - offset <= MAX_LIST_TOOLS_PER_SERVER {
        count
    } else {
        offset + MAX_LIST_TOOLS_PER_SERVER
    };
    let mut lines: Vec<String> = Vec::new();
    let mut i: usize = offset;
    assert(text::texts(lines@) =~= shown.take(0));
    while i < end
        invariant
            offset <= i <= end,
            all == spec::tool_views(tools@),
            end <= tools.len() || i == end,
            shown == tool_lines(shown_tools(all, offset as int)),
            shown.len() == end - offset,
            forall|k: int| 0 <= k < shown.len() ==> shown[k] == tool_line(all[offset + k]),
            text::texts(lines@) == shown.take(i - offset),
        decreases end - i,
    {
        let line = line_of(&tools[i]);
        let ghost done = lines@;
        lines.push(line);
        assert(text::texts(lines@) =~= text::texts(done).push(line@));
        assert(shown.take(i + 1 - offset) =~= shown.take(i - offset).push(shown[i - offset]));
        i = i + 1;
    }
    assert(shown.take(shown.len() as int) =~= shown);
    if end < count {
        let mut more = "… ".to_owned();
        more.append(text::decimal_of((count - end) as u64).as_str());
        more.append(" more tools (call again with \"offset\": ");
        more.append(text::decimal_of(end as u64).as_str());
        more.append(")");
        let ghost done = lines@;
        lines.push(more);
        assert(text::texts(lines@) =~= text::texts(done).push(more@));
        text::joined(&lines, "\n")
    } else if lines.len() > 0 {
        assert(text::texts(lines@).len() > 0);
        text::joined(&lines, "\n")
    } else if offset == 0 {
        assert(text::texts(lines@).len() == 0);
        "(no tools)".to_owned()
    } else {
        assert(text::texts(lines@).len() == 0);
        let mut out = "(no tools at offset ".to_owned();
        out.append(text::decimal_of(offset as u64).as_str());
        out.append("; ");
        out.append(text::decimal_of(count as u64).as_str());
        out.append(" total)");
        out
    }
}

/// The first tool with a name.
pub open spec fn tool_named(tools: Seq<ToolView>, name: Seq<char>, from: int) -> Option<ToolView>
    decreases tools.len() - from,
{
    if from < 0 || from >= tools.len() {
        None
    } else if tools[from].name == name {
        Some(tools[from])
    } else {
        tool_named(tools, name, from + 1)
    }
}

/// A rendered schema within its bound.
pub open spec fn bounded_schema(rendered: Seq<char>) -> Seq<char> {
    if text::byte_len(rendered) > MAX_DESCRIBE_BYTES {
        text::head_within(rendered, MAX_DESCRIBE_BYTES as int) + "…(truncated)"@
    } else {
        rendered
    }
}

/// Cuts a rendered schema to its bound.
pub fn bound_schema(rendered: String) -> (r: String)
    ensures
        r@ == bounded_schema(rendered@),
{
    if text::byte_count(rendered.as_str()) > MAX_DESCRIBE_BYTES {
        let mut out = text::head_of(rendered.as_str(), MAX_DESCRIBE_BYTES);
        out.append("…(truncated)");
        out
    } else {
        rendered
    }
}

/// The schema of a tool, for the model.
pub fn describe(tools: &Vec<McpToolSummary>, server: &str, tool: &str) -> (r: Result<
    String,
    McpError,
>)
    ensures
        match tool_named(spec::tool_views(tools@), tool@, 0) {
            Some(found) => r matches Ok(rendered) && rendered@ == bounded_schema(
                json::json_pretty(found.schema),
            ),
            None => r matches Err(error) && error@ == McpErrorView::Protocol(
                "unknown tool "@ + tool@ + " on server "@ + server@,
            ),
        },
{
    let ghost all = spec::tool_views(tools@);
    let mut i: usize = 0;
    while i < tools.len()
        invariant
            i <= tools@.len(),
            all == spec::tool_views(tools@),
            tool_named(all, tool@, 0) == tool_named(all, tool@, i as int),
        decreases tools@.len() - i,
    {
        if text::same(tools[i].name.as_str(), tool) {
            return Ok(bound_schema(json::to_text_pretty(&tools[i].schema)));
        }
        i = i + 1;
    }
    let mut message = "unknown tool ".to_owned();
    message.append(tool);
    message.append(" on server ");
    message.append(server);
    Err(McpError::Protocol(message))
}

/// What the library says of itself when a connection begins.
pub open spec fn initialize_tree(version: Seq<char>) -> Tree {
    json::empty_object().with("protocolVersion"@, Tree::Text(spec::MCP_PROTOCOL_VERSION@)).with(
        "capabilities"@,
        json::empty_object(),
    ).with(
        "clientInfo"@,
        json::empty_object().with("name"@, Tree::Text("slim"@)).with(
            "version"@,
            Tree::Text(version),
        ),
    )
}

pub fn initialize_params(version: &str) -> (r: Json)
    ensures
        r@ == initialize_tree(version@),
{
    let client = Json::object().with("name", Json::string("slim")).with(
        "version",
        Json::string(version),
    );
    Json::object().with("protocolVersion", Json::string(spec::MCP_PROTOCOL_VERSION)).with(
        "capabilities",
        Json::object(),
    ).with("clientInfo", client)
}

} // verus!
