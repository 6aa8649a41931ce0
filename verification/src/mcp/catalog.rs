//! The tools, resources and prompts that one server offers, and the selection
//! made of them.
use vstd::prelude::*;
use vstd::string::*;

use crate::protocol::OperatingMode;
use crate::text;

verus! {

/// The name under which a server's tool is known.
pub open spec fn tool_name(server: Seq<char>, tool: Seq<char>) -> Seq<char> {
    "mcp."@ + server + "."@ + tool
}

pub fn canonical_name(server: &str, tool: &str) -> (r: String)
    ensures
        r@ == tool_name(server@, tool@),
{
    let mut out = "mcp.".to_owned();
    out.append(server);
    out.append(".");
    out.append(tool);
    out
}

#[derive(Clone, Debug)]
pub struct McpCatalog {
    server: String,
    tools: Vec<String>,
    resources: Vec<String>,
    prompts: Vec<String>,
    selected_resources: Vec<String>,
    selected_prompts: Vec<String>,
}

#[verifier::ext_equal]
pub struct CatalogView {
    pub server: Seq<char>,
    pub tools: Seq<Seq<char>>,
    pub resources: Seq<Seq<char>>,
    pub prompts: Seq<Seq<char>>,
    pub selected_resources: Seq<Seq<char>>,
    pub selected_prompts: Seq<Seq<char>>,
}

impl CatalogView {
    /// What every catalog keeps: a selection holds what is on offer, each once.
    pub open spec fn wf(self) -> bool {
        &&& self.selected_resources.no_duplicates()
        &&& self.selected_prompts.no_duplicates()
        &&& forall|i: int|
            0 <= i < self.selected_resources.len() ==> self.resources.contains(
                #[trigger] self.selected_resources[i],
            )
        &&& forall|i: int|
            0 <= i < self.selected_prompts.len() ==> self.prompts.contains(
                #[trigger] self.selected_prompts[i],
            )
    }
}

impl View for McpCatalog {
    type V = CatalogView;

    closed spec fn view(&self) -> CatalogView {
        CatalogView {
            server: self.server@,
            tools: text::texts(self.tools@),
            resources: text::texts(self.resources@),
            prompts: text::texts(self.prompts@),
            selected_resources: text::texts(self.selected_resources@),
            selected_prompts: text::texts(self.selected_prompts@),
        }
    }
}

/// A selection after a choice.
pub open spec fn chosen(selected: Seq<Seq<char>>, choice: Seq<char>) -> Seq<Seq<char>> {
    if selected.contains(choice) {
        selected
    } else {
        selected.push(choice)
    }
}

/// The names of all tools of a server.
pub open spec fn names(server: Seq<char>, tools: Seq<Seq<char>>) -> Seq<Seq<char>> {
    tools.map_values(|tool: Seq<char>| tool_name(server, tool))
}

fn holds(list: &Vec<String>, item: &str) -> (r: bool)
    ensures
        r == text::texts(list@).contains(item@),
{
    let mut i: usize = 0;
    while i < list.len()
        invariant
            i <= list@.len(),
            forall|k: int| 0 <= k < i ==> text::texts(list@)[k] != item@,
        decreases list@.len() - i,
    {
        if text::same(list[i].as_str(), item) {
            assert(text::texts(list@)[i as int] == item@);
            return true;
        }
        i = i + 1;
    }
    false
}

fn add(list: &mut Vec<String>, item: String)
    ensures
        text::texts(final(list)@) == text::texts(old(list)@).push(item@),
{
    list.push(item);
    assert(text::texts(list@) =~= text::texts(old(list)@).push(item@));
}

fn choose_from(list: &mut Vec<String>, item: &str)
    ensures
        text::texts(final(list)@) == chosen(text::texts(old(list)@), item@),
{
    if !holds(list, item) {
        self::add(list, item.to_owned());
    }
}

impl McpCatalog {
    /// A server that offers nothing yet.
    pub fn new(server: String) -> (r: McpCatalog)
        ensures
            r@ == (CatalogView {
                server: server@,
                tools: Seq::empty(),
                resources: Seq::empty(),
                prompts: Seq::empty(),
                selected_resources: Seq::empty(),
                selected_prompts: Seq::empty(),
            }),
            r@.wf(),
    {
        let r = McpCatalog {
            server,
            tools: Vec::new(),
            resources: Vec::new(),
            prompts: Vec::new(),
            selected_resources: Vec::new(),
            selected_prompts: Vec::new(),
        };
        assert(r@.tools =~= Seq::empty());
        assert(r@.resources =~= Seq::empty());
        assert(r@.prompts =~= Seq::empty());
        assert(r@.selected_resources =~= Seq::empty());
        assert(r@.selected_prompts =~= Seq::empty());
        r
    }

    pub fn add_tool(&mut self, tool: String)
        ensures
            final(self)@ == (CatalogView { tools: old(self)@.tools.push(tool@), ..old(self)@ }),
            old(self)@.wf() ==> final(self)@.wf(),
    {
        self::add(&mut self.tools, tool);
    }

    pub fn add_resource(&mut self, resource: String)
        ensures
            final(self)@ == (CatalogView {
                resources: old(self)@.resources.push(resource@),
                ..old(self)@
            }),
            old(self)@.wf() ==> final(self)@.wf(),
    {
        self::add(&mut self.resources, resource);
        proof {
            if old(self)@.wf() {
                lemma_still_offered(
                    old(self)@.resources,
                    resource@,
                    old(self)@.selected_resources,
                );
            }
        }
    }

    pub fn add_prompt(&mut self, prompt: String)
        ensures
            final(self)@ == (CatalogView {
                prompts: old(self)@.prompts.push(prompt@),
                ..old(self)@
            }),
            old(self)@.wf() ==> final(self)@.wf(),
    {
        self::add(&mut self.prompts, prompt);
        proof {
            if old(self)@.wf() {
                lemma_still_offered(old(self)@.prompts, prompt@, old(self)@.selected_prompts);
            }
        }
    }

    /// The tools that a mode offers, under their names: all in the automatic
    /// mode, none in any other.
    pub fn tools_for_mode(&self, mode: OperatingMode) -> (r: Vec<String>)
        ensures
            text::texts(r@) == if mode is Auto {
                names(self@.server, self@.tools)
            } else {
                Seq::empty()
            },
    {
        let mut out: Vec<String> = Vec::new();
        let ghost all = names(self@.server, self@.tools);
        assert(text::texts(out@) =~= Seq::empty());
        match mode {
            OperatingMode::Auto => {},
            _ => {
                return out;
            },
        }
        let mut i: usize = 0;
        assert(all.take(0) =~= Seq::empty());
        while i < self.tools.len()
            invariant
                i <= self.tools.len(),
                all == names(self@.server, self@.tools),
                text::texts(out@) == all.take(i as int),
            decreases self.tools.len() - i,
        {
            let name = canonical_name(self.server.as_str(), self.tools[i].as_str());
            self::add(&mut out, name);
            assert(all.take(i + 1) =~= all.take(i as int).push(all[i as int]));
            i = i + 1;
        }
        assert(all.take(all.len() as int) =~= all);
        out
    }

    /// Selects a resource that is on offer.
    pub fn select_resource(&mut self, resource: &str) -> (r: Result<(), String>)
        ensures
            if old(self)@.resources.contains(resource@) {
                r is Ok && final(self)@ == (CatalogView {
                    selected_resources: chosen(old(self)@.selected_resources, resource@),
                    ..old(self)@
                })
            } else {
                r matches Err(m) && m@ == "unknown MCP resource: "@ + resource@ && final(self)@
                    == old(self)@
            },
            old(self)@.wf() ==> final(self)@.wf(),
    {
        if holds(&self.resources, resource) {
            choose_from(&mut self.selected_resources, resource);
            Ok(())
        } else {
            let mut message = "unknown MCP resource: ".to_owned();
            message.append(resource);
            Err(message)
        }
    }

    pub fn selected_resources(&self) -> (r: &[String])
        ensures
            text::texts(r@) == self@.selected_resources,
    {
        self.selected_resources.as_slice()
    }

    /// Selects a prompt that is on offer.
    pub fn select_prompt(&mut self, prompt: &str) -> (r: Result<(), String>)
        ensures
            if old(self)@.prompts.contains(prompt@) {
                r is Ok && final(self)@ == (CatalogView {
                    selected_prompts: chosen(old(self)@.selected_prompts, prompt@),
                    ..old(self)@
                })
            } else {
                r matches Err(m) && m@ == "unknown MCP prompt: "@ + prompt@ && final(self)@
                    == old(self)@
            },
            old(self)@.wf() ==> final(self)@.wf(),
    {
        if holds(&self.prompts, prompt) {
            choose_from(&mut self.selected_prompts, prompt);
            Ok(())
        } else {
            let mut message = "unknown MCP prompt: ".to_owned();
            message.append(prompt);
            Err(message)
        }
    }

    pub fn selected_prompts(&self) -> (r: &[String])
        ensures
            text::texts(r@) == self@.selected_prompts,
    {
        self.selected_prompts.as_slice()
    }

    /// The text of a call, where the mode allows it and the tool is on offer.
    pub fn call_tool(&self, mode: OperatingMode, tool: &str, arguments: &str) -> (r: Result<
        String,
        String,
    >)
        ensures
            if !(mode is Auto) {
                r matches Err(m) && m@ == "MCP tools are unavailable outside Auto"@
            } else if !self@.tools.contains(tool@) {
                r matches Err(m) && m@ == "unknown MCP tool: "@ + tool@
            } else {
                r matches Ok(call) && call@ == tool_name(self@.server, tool@) + "("@ + arguments@
                    + ")"@
            },
    {
        match mode {
            OperatingMode::Auto => {},
            _ => {
                return Err("MCP tools are unavailable outside Auto".to_owned());
            },
        }
        if !holds(&self.tools, tool) {
            let mut message = "unknown MCP tool: ".to_owned();
            message.append(tool);
            return Err(message);
        }
        let mut call = canonical_name(self.server.as_str(), tool);
        call.append("(");
        call.append(arguments);
        call.append(")");
        Ok(call)
    }
}

proof fn lemma_still_offered(offer: Seq<Seq<char>>, item: Seq<char>, selected: Seq<Seq<char>>)
    requires
        forall|i: int| 0 <= i < selected.len() ==> offer.contains(#[trigger] selected[i]),
    ensures
        forall|i: int|
            0 <= i < selected.len() ==> offer.push(item).contains(#[trigger] selected[i]),
{
    assert forall|i: int| 0 <= i < selected.len() implies offer.push(item).contains(
        #[trigger] selected[i],
    ) by {
        let k = choose|k: int| 0 <= k < offer.len() && offer[k] == selected[i];
        assert(offer.push(item)[k] == selected[i]);
    }
}

/// Whether a server still runs.
#[derive(Debug)]
pub struct McpLifecycle {
    running: bool,
}

impl View for McpLifecycle {
    type V = bool;

    closed spec fn view(&self) -> bool {
        self.running
    }
}

impl McpLifecycle {
    pub fn new() -> (r: McpLifecycle)
        ensures
            r@,
    {
        McpLifecycle { running: true }
    }

    pub fn is_running(&self) -> (r: bool)
        ensures
            r == self@,
    {
        self.running
    }

    /// Stops the server for good.
    pub fn cancel(&mut self)
        ensures
            !final(self)@,
    {
        self.running = false;
    }
}

} // verus!
