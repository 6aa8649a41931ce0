//! The configured servers and how each stands.
//!
//! Connections are made elsewhere: a server is told of one by a number, and
//! says which numbers are to be dropped.
use vstd::prelude::*;
use vstd::string::*;

use crate::json;
use crate::mcp::spec;
use crate::mcp::spec::{
    InfoView, McpError, McpErrorView, McpServerInfo, McpServerSpec, McpServerStatus,
    McpToolSummary, SpecView, StatusView,
};
use crate::text;

verus! {

pub const MAX_LIST_SERVERS: usize = 64;

/// One configured server. The entry number tells it apart from any other that
/// was ever configured under its name; `holders` counts those who work with it.
struct ServerEntry {
    entry: u64,
    spec: McpServerSpec,
    status: McpServerStatus,
    connection: Option<u64>,
    generation: u64,
    holders: u64,
}

#[verifier::ext_equal]
pub struct ServerView {
    pub entry: u64,
    pub spec: SpecView,
    pub status: StatusView,
    pub connection: Option<u64>,
    pub generation: u64,
    pub holders: u64,
}

impl View for ServerEntry {
    type V = ServerView;

    closed spec fn view(&self) -> ServerView {
        ServerView {
            entry: self.entry,
            spec: self.spec@,
            status: self.status@,
            connection: self.connection,
            generation: self.generation,
            holders: self.holders,
        }
    }
}

spec fn server_views(servers: Seq<ServerEntry>) -> Seq<ServerView> {
    servers.map_values(|s: ServerEntry| s@)
}

/// How a server without a connection stands.
pub open spec fn idle_status(enabled: bool) -> StatusView {
    if enabled {
        StatusView::Disconnected
    } else {
        StatusView::Disabled
    }
}

/// A server that was just configured.
pub open spec fn fresh(entry: u64, spec: SpecView) -> ServerView {
    ServerView {
        entry,
        spec,
        status: idle_status(spec.enabled),
        connection: None,
        generation: 0,
        holders: 0,
    }
}

/// A number after one more step, round the corner past the largest.
pub open spec fn stepped(n: u64) -> u64 {
    if n == u64::MAX {
        0
    } else {
        (n + 1) as u64
    }
}

/// The place of a server with a name.
pub open spec fn position(servers: Seq<ServerView>, name: Seq<char>) -> Option<int>
    decreases servers.len(),
{
    if servers.len() == 0 {
        None
    } else if servers.last().spec.name == name {
        Some(servers.len() - 1)
    } else {
        position(servers.drop_last(), name)
    }
}

/// The place of an entry.
pub open spec fn entry_at(servers: Seq<ServerView>, entry: u64) -> Option<int>
    decreases servers.len(),
{
    if servers.len() == 0 {
        None
    } else if servers.last().entry == entry {
        Some(servers.len() - 1)
    } else {
        entry_at(servers.drop_last(), entry)
    }
}

/// The servers with one put in its place among the names, instead of one that
/// has its name already.
pub open spec fn placed(servers: Seq<ServerView>, server: ServerView) -> Seq<ServerView>
    decreases servers.len(),
{
    if servers.len() == 0 {
        seq![server]
    } else if servers.last().spec.name == server.spec.name {
        servers.drop_last().push(server)
    } else if json::text_less(servers.last().spec.name, server.spec.name) {
        servers.push(server)
    } else {
        placed(servers.drop_last(), server).push(servers.last())
    }
}

/// The servers of a new configuration: one whose configuration stays the same
/// is kept as it stands, all others begin anew, with entry numbers in turn.
pub open spec fn reconciled(
    servers: Seq<ServerView>,
    next_entry: u64,
    specs: Seq<SpecView>,
) -> (Seq<ServerView>, u64)
    decreases specs.len(),
{
    if specs.len() == 0 {
        (Seq::empty(), next_entry)
    } else {
        let before = reconciled(servers, next_entry, specs.drop_last());
        let spec = specs.last();
        match position(servers, spec.name) {
            Some(i) => if servers[i].spec == spec {
                (placed(before.0, servers[i]), before.1)
            } else {
                (placed(before.0, fresh(before.1, spec)), stepped(before.1))
            },
            None => (placed(before.0, fresh(before.1, spec)), stepped(before.1)),
        }
    }
}

/// Whether a configuration keeps a server as it is.
pub open spec fn keeps(specs: Seq<SpecView>, server: ServerView) -> bool {
    exists|k: int| 0 <= k < specs.len() && #[trigger] specs[k] == server.spec
}

/// The connections of the servers that a configuration does not keep and nobody
/// works with.
pub open spec fn dropped(servers: Seq<ServerView>, specs: Seq<SpecView>) -> Seq<u64>
    decreases servers.len(),
{
    if servers.len() == 0 {
        Seq::empty()
    } else {
        let before = dropped(servers.drop_last(), specs);
        match servers.last().connection {
            Some(connection) => if keeps(specs, servers.last()) || servers.last().holders > 0 {
                before
            } else {
                before.push(connection)
            },
            None => before,
        }
    }
}

/// The servers that left the list, with one more: it stays known while somebody
/// works with it.
pub open spec fn with_departed(departed: Seq<ServerView>, server: ServerView) -> Seq<ServerView> {
    if server.holders > 0 {
        departed.push(server)
    } else {
        departed
    }
}

/// The connection to be dropped with a server that leaves the list.
pub open spec fn freed(server: ServerView) -> Option<u64> {
    if server.holders > 0 {
        None
    } else {
        server.connection
    }
}

/// The servers that left the list, with those that a configuration does not keep.
pub open spec fn all_departed(
    servers: Seq<ServerView>,
    specs: Seq<SpecView>,
    departed: Seq<ServerView>,
) -> Seq<ServerView>
    decreases servers.len(),
{
    if servers.len() == 0 {
        departed
    } else {
        let before = all_departed(servers.drop_last(), specs, departed);
        if keeps(specs, servers.last()) {
            before
        } else {
            with_departed(before, servers.last())
        }
    }
}

/// One holder more. A count at the largest number stays there.
pub open spec fn held(server: ServerView) -> ServerView {
    if server.holders == u64::MAX {
        server
    } else {
        ServerView { holders: (server.holders + 1) as u64, ..server }
    }
}

/// One holder less.
pub open spec fn let_go(server: ServerView) -> ServerView {
    if server.holders == u64::MAX || server.holders == 0 {
        server
    } else {
        ServerView { holders: (server.holders - 1) as u64, ..server }
    }
}

/// Whether the names of the servers stand in strict order, so that none occurs
/// twice.
pub open spec fn names_in_order(servers: Seq<ServerView>) -> bool {
    forall|i: int, j: int|
        0 <= i < j < servers.len() ==> json::text_less(
            (#[trigger] servers[i]).spec.name,
            (#[trigger] servers[j]).spec.name,
        )
}

/// All connections.
pub open spec fn connections(servers: Seq<ServerView>) -> Seq<u64>
    decreases servers.len(),
{
    if servers.len() == 0 {
        Seq::empty()
    } else {
        match servers.last().connection {
            Some(connection) => connections(servers.drop_last()).push(connection),
            None => connections(servers.drop_last()),
        }
    }
}

/// A server after its connection was given up on demand: whatever handshake is
/// under way must not be published.
pub open spec fn disconnected(server: ServerView) -> ServerView {
    ServerView {
        connection: None,
        generation: stepped(server.generation),
        status: idle_status(server.spec.enabled),
        ..server
    }
}

/// The same when every server is given up; a disabled one keeps its status.
pub open spec fn shut_down(server: ServerView) -> ServerView {
    ServerView {
        connection: None,
        generation: stepped(server.generation),
        status: if server.spec.enabled {
            StatusView::Disconnected
        } else {
            server.status
        },
        ..server
    }
}

pub open spec fn all_shut_down(servers: Seq<ServerView>) -> Seq<ServerView> {
    servers.map_values(|s: ServerView| shut_down(s))
}

/// How the servers stand. The revision steps with every change, so that whoever
/// shows them can look cheaply.
#[verifier::ext_equal]
pub struct ManagerView {
    pub servers: Seq<ServerView>,
    /// Those that left the list while somebody works with them.
    pub departed: Seq<ServerView>,
    pub next_entry: u64,
    pub revision: u64,
}

impl ManagerView {
    pub open spec fn bumped(self) -> ManagerView {
        ManagerView { revision: stepped(self.revision), ..self }
    }

    pub open spec fn set(self, i: int, server: ServerView) -> ManagerView {
        ManagerView { servers: self.servers.update(i, server), ..self }
    }

    /// What every manager keeps: its servers in the order of their names.
    pub open spec fn wf(self) -> bool {
        names_in_order(self.servers)
    }

    /// The server of an entry: one that is listed, or one that left the list
    /// while somebody works with it.
    pub open spec fn known(self, entry: u64) -> Option<ServerView> {
        match entry_at(self.servers, entry) {
            Some(i) => Some(self.servers[i]),
            None => match entry_at(self.departed, entry) {
                Some(i) => Some(self.departed[i]),
                None => None,
            },
        }
    }

    /// The manager with the server of an entry changed.
    pub open spec fn amended(self, entry: u64, server: ServerView) -> ManagerView {
        match entry_at(self.servers, entry) {
            Some(i) => self.set(i, server),
            None => match entry_at(self.departed, entry) {
                Some(i) => ManagerView { departed: self.departed.update(i, server), ..self },
                None => self,
            },
        }
    }

    /// The manager without one of its listed servers.
    pub open spec fn without(self, i: int) -> ManagerView {
        ManagerView {
            servers: self.servers.remove(i),
            departed: with_departed(self.departed, self.servers[i]),
            ..self
        }
    }

    /// The manager with a server put in its place; one under its name leaves.
    pub open spec fn entered(self, server: ServerView) -> ManagerView {
        ManagerView {
            servers: placed(self.servers, server),
            departed: match position(self.servers, server.spec.name) {
                Some(i) => with_departed(self.departed, self.servers[i]),
                None => self.departed,
            },
            next_entry: stepped(self.next_entry),
            ..self
        }
    }

    /// The manager under a new configuration.
    pub open spec fn configured(self, specs: Seq<SpecView>) -> ManagerView {
        ManagerView {
            servers: reconciled(self.servers, self.next_entry, specs).0,
            departed: all_departed(self.servers, specs, self.departed),
            next_entry: reconciled(self.servers, self.next_entry, specs).1,
            ..self
        }
    }

    /// The manager after a holder of an entry let it go: the last one takes a
    /// server that left the list with it.
    pub open spec fn released(self, entry: u64) -> ManagerView {
        match entry_at(self.servers, entry) {
            Some(i) => self.set(i, let_go(self.servers[i])),
            None => match entry_at(self.departed, entry) {
                Some(i) => ManagerView {
                    departed: if let_go(self.departed[i]).holders == 0 {
                        self.departed.remove(i)
                    } else {
                        self.departed.update(i, let_go(self.departed[i]))
                    },
                    ..self
                },
                None => self,
            },
        }
    }

    /// The connection to be dropped after a holder of an entry let it go.
    pub open spec fn freed_by_release(self, entry: u64) -> Option<u64> {
        match entry_at(self.servers, entry) {
            Some(_) => None,
            None => match entry_at(self.departed, entry) {
                Some(i) => freed(let_go(self.departed[i])),
                None => None,
            },
        }
    }
}

/// A server in a list for the model.
pub open spec fn server_line(server: ServerView) -> Seq<char> {
    server.spec.name + " ["@ + server.spec.transport.kind() + "] "@ + match server.status {
        StatusView::Disabled => "disabled"@,
        StatusView::Disconnected => "disconnected"@,
        StatusView::Connecting => "connecting"@,
        StatusView::Ready { tools } => "ready, "@ + text::decimal(tools.len()) + " tools"@,
        StatusView::Failed { error } => "failed: "@ + error,
    }
}

pub open spec fn server_lines(servers: Seq<ServerView>) -> Seq<Seq<char>> {
    servers.map_values(|s: ServerView| server_line(s))
}

/// The list of servers for the model: names, transports and statuses only.
pub open spec fn servers_text(servers: Seq<ServerView>) -> Seq<char> {
    if servers.len() == 0 {
        "no MCP servers configured"@
    } else if servers.len() <= MAX_LIST_SERVERS {
        text::join(server_lines(servers), "\n"@)
    } else {
        text::join(
            server_lines(servers.take(MAX_LIST_SERVERS as int)).push(
                "… "@ + text::decimal((servers.len() - MAX_LIST_SERVERS) as nat)
                    + " more servers"@,
            ),
            "\n"@,
        )
    }
}

pub open spec fn server_info(server: ServerView) -> InfoView {
    InfoView {
        name: server.spec.name,
        transport: server.spec.transport.kind(),
        target: server.spec.transport.target(),
        enabled: server.spec.enabled,
        status: server.status,
    }
}

pub open spec fn server_infos(servers: Seq<ServerView>) -> Seq<InfoView> {
    servers.map_values(|s: ServerView| server_info(s))
}

/// The credentials of all servers.
pub open spec fn all_secrets(servers: Seq<ServerView>) -> Seq<Seq<char>>
    decreases servers.len(),
{
    if servers.len() == 0 {
        Seq::empty()
    } else {
        all_secrets(servers.drop_last()) + servers.last().spec.transport.secrets()
    }
}

/// What is to be done to have a connection.
#[derive(Debug)]
pub enum ConnectStep {
    /// This connection still serves.
    Reuse { connection: u64 },
    /// Make a connection, and drop the one that died if there was one.
    Connect { generation: u64, dead: Option<u64> },
}

/// What a handshake came to.
#[derive(Debug)]
pub enum Handshake {
    Connected { connection: u64, tools: Vec<McpToolSummary> },
    Failed { error: McpError },
}

/// The configured servers, in the order of their names.
pub struct McpManager {
    servers: Vec<ServerEntry>,
    departed: Vec<ServerEntry>,
    next_entry: u64,
    revision: u64,
}

impl View for McpManager {
    type V = ManagerView;

    closed spec fn view(&self) -> ManagerView {
        ManagerView {
            servers: server_views(self.servers@),
            departed: server_views(self.departed@),
            next_entry: self.next_entry,
            revision: self.revision,
        }
    }
}

fn idle(enabled: bool) -> (r: McpServerStatus)
    ensures
        r@ == idle_status(enabled),
{
    if enabled {
        McpServerStatus::Disconnected
    } else {
        McpServerStatus::Disabled
    }
}

fn fresh_entry(entry: u64, spec: McpServerSpec) -> (r: ServerEntry)
    ensures
        r@ == fresh(entry, spec@),
{
    let status = idle(spec.enabled);
    ServerEntry { entry, spec, status, connection: None, generation: 0, holders: 0 }
}

fn copy_entry(server: &ServerEntry) -> (r: ServerEntry)
    ensures
        r@ == server@,
{
    ServerEntry {
        entry: server.entry,
        spec: server.spec.copy(),
        status: server.status.copy(),
        connection: server.connection,
        generation: server.generation,
        holders: server.holders,
    }
}

fn changed(
    server: &ServerEntry,
    status: McpServerStatus,
    connection: Option<u64>,
    generation: u64,
) -> (r: ServerEntry)
    ensures
        r@ == (ServerView { status: status@, connection, generation, ..server@ }),
{
    ServerEntry {
        entry: server.entry,
        spec: server.spec.copy(),
        status,
        connection,
        generation,
        holders: server.holders,
    }
}

fn fewer(holders: u64) -> (r: u64)
    ensures
        r == if holders == u64::MAX || holders == 0 {
            holders
        } else {
            (holders - 1) as u64
        },
{
    if holders == u64::MAX || holders == 0 {
        holders
    } else {
        holders - 1
    }
}

fn place_of(servers: &Vec<ServerEntry>, name: &str) -> (r: Option<usize>)
    ensures
        match r {
            Some(i) => i < servers@.len() && position(server_views(servers@), name@) == Some(
                i as int,
            ),
            None => position(server_views(servers@), name@) is None,
        },
{
    let ghost all = server_views(servers@);
    let mut i: usize = servers.len();
    assert(all.take(i as int) =~= all);
    while i > 0
        invariant
            i <= servers@.len(),
            all == server_views(servers@),
            position(all, name@) == position(all.take(i as int), name@),
        decreases i,
    {
        assert(all.take(i as int).last() == servers@[i - 1]@);
        assert(all.take(i as int).drop_last() =~= all.take(i - 1));
        if text::same(servers[i - 1].spec.name.as_str(), name) {
            return Some(i - 1);
        }
        i = i - 1;
    }
    None
}

fn place_of_entry(servers: &Vec<ServerEntry>, entry: u64) -> (r: Option<usize>)
    ensures
        match r {
            Some(i) => i < servers@.len() && entry_at(server_views(servers@), entry) == Some(
                i as int,
            ),
            None => entry_at(server_views(servers@), entry) is None,
        },
{
    let ghost all = server_views(servers@);
    let mut i: usize = servers.len();
    assert(all.take(i as int) =~= all);
    while i > 0
        invariant
            i <= servers@.len(),
            all == server_views(servers@),
            entry_at(all, entry) == entry_at(all.take(i as int), entry),
        decreases i,
    {
        assert(all.take(i as int).last() == servers@[i - 1]@);
        assert(all.take(i as int).drop_last() =~= all.take(i - 1));
        if servers[i - 1].entry == entry {
            return Some(i - 1);
        }
        i = i - 1;
    }
    None
}

fn put(servers: &mut Vec<ServerEntry>, server: ServerEntry)
    ensures
        server_views(final(servers)@) == placed(server_views(old(servers)@), server@),
{
    let ghost all = server_views(servers@);
    let ghost new = server@;
    let n: usize = servers.len();
    let mut i: usize = n;
    assert(all.take(n as int) =~= all);
    assert(placed(all.take(n as int), new) + all.skip(n as int) =~= placed(all, new));
    while i > 0
        invariant
            i <= n == servers@.len(),
            all == server_views(servers@),
            new == server@,
            *servers == *old(servers),
            placed(all, new) == placed(all.take(i as int), new) + all.skip(i as int),
        ensures
            i > 0 ==> all[i - 1].spec.name != new.spec.name && json::text_less(
                all[i - 1].spec.name,
                new.spec.name,
            ),
        decreases i,
    {
        let ghost part = all.take(i as int);
        assert(part.last() == servers@[i - 1]@);
        if text::same(servers[i - 1].spec.name.as_str(), server.spec.name.as_str()) {
            let ghost before = servers@;
            servers.set(i - 1, server);
            assert(server_views(servers@) =~= server_views(before).update(i - 1, new));
            assert(part.drop_last().push(new) + all.skip(i as int) =~= all.update(i - 1, new));
            return;
        }
        if json::less(servers[i - 1].spec.name.as_str(), server.spec.name.as_str()) {
            break;
        }
        assert(part.drop_last() =~= all.take(i - 1));
        assert(placed(all.take(i - 1), new).push(all[i - 1]) + all.skip(i as int) =~= placed(
            all.take(i - 1),
            new,
        ) + all.skip(i - 1));
        i = i - 1;
    }
    let ghost before = servers@;
    servers.insert(i, server);
    assert(server_views(servers@) =~= server_views(before).insert(i as int, new));
    assert(all.insert(i as int, new) =~= all.take(i as int).push(new) + all.skip(i as int));
}

fn is_kept(specs: &Vec<McpServerSpec>, server: &ServerEntry) -> (r: bool)
    ensures
        r == keeps(spec::spec_views(specs@), server@),
{
    let ghost all = spec::spec_views(specs@);
    let mut k: usize = 0;
    while k < specs.len()
        invariant
            k <= specs@.len(),
            all == spec::spec_views(specs@),
            forall|j: int| 0 <= j < k ==> #[trigger] all[j] != server@.spec,
        decreases specs@.len() - k,
    {
        if specs[k].same(&server.spec) {
            assert(all[k as int] == server@.spec);
            return true;
        }
        k = k + 1;
    }
    false
}

proof fn lemma_entry_at(servers: Seq<ServerView>, entry: u64)
    ensures
        match entry_at(servers, entry) {
            Some(i) => 0 <= i < servers.len() && servers[i].entry == entry,
            None => forall|i: int| 0 <= i < servers.len() ==> (#[trigger] servers[i]).entry
                != entry,
        },
    decreases servers.len(),
{
    if servers.len() > 0 && servers.last().entry != entry {
        let front = servers.drop_last();
        lemma_entry_at(front, entry);
        if entry_at(front, entry) is None {
            assert forall|i: int| 0 <= i < servers.len() implies (#[trigger] servers[i]).entry
                != entry by {
                if i < front.len() {
                    assert(front[i].entry != entry);
                }
            }
        }
    }
}

proof fn lemma_known(manager: ManagerView, entry: u64)
    ensures
        manager.wf() ==> forall|server: ServerView|
            manager.known(entry) is Some && server.spec == manager.known(entry)->0.spec
                ==> (#[trigger] manager.amended(entry, server)).wf(),
{
    lemma_entry_at(manager.servers, entry);
    if manager.wf() {
        assert forall|server: ServerView|
            manager.known(entry) is Some && server.spec == manager.known(
                entry,
            )->0.spec implies (#[trigger] manager.amended(entry, server)).wf() by {
            let after = manager.amended(entry, server).servers;
            assert forall|i: int, j: int| 0 <= i < j < after.len() implies json::text_less(
                (#[trigger] after[i]).spec.name,
                (#[trigger] after[j]).spec.name,
            ) by {
                assert(after[i].spec == manager.servers[i].spec);
                assert(after[j].spec == manager.servers[j].spec);
            }
        }
    }
}

proof fn lemma_removed_in_order(servers: Seq<ServerView>, at: int)
    requires
        names_in_order(servers),
        0 <= at < servers.len(),
    ensures
        names_in_order(servers.remove(at)),
{
    let after = servers.remove(at);
    assert forall|i: int, j: int| 0 <= i < j < after.len() implies json::text_less(
        (#[trigger] after[i]).spec.name,
        (#[trigger] after[j]).spec.name,
    ) by {
        let a = if i < at {
            i
        } else {
            i + 1
        };
        let b = if j < at {
            j
        } else {
            j + 1
        };
        assert(after[i] == servers[a] && after[j] == servers[b]);
    }
}

proof fn lemma_placed_in_order(servers: Seq<ServerView>, server: ServerView)
    requires
        names_in_order(servers),
    ensures
        names_in_order(placed(servers, server)),
        forall|i: int|
            0 <= i < placed(servers, server).len() ==> ((#[trigger] placed(servers, server)[i])
                == server || exists|j: int|
                0 <= j < servers.len() && servers[j] == placed(servers, server)[i]),
    decreases servers.len(),
{
    let after = placed(servers, server);
    if servers.len() > 0 {
        let front = servers.drop_last();
        let last = servers.last();
        assert forall|i: int, j: int| 0 <= i < j < front.len() implies json::text_less(
            (#[trigger] front[i]).spec.name,
            (#[trigger] front[j]).spec.name,
        ) by {
            assert(front[i] == servers[i] && front[j] == servers[j]);
        }
        assert forall|i: int| 0 <= i < front.len() implies json::text_less(
            (#[trigger] front[i]).spec.name,
            last.spec.name,
        ) by {
            assert(front[i] == servers[i] && last == servers[servers.len() - 1]);
        }
        if last.spec.name == server.spec.name {
            assert forall|i: int| 0 <= i < after.len() implies ((#[trigger] after[i]) == server
                || exists|j: int| 0 <= j < servers.len() && servers[j] == after[i]) by {
                if i < front.len() {
                    assert(servers[i] == after[i]);
                }
            }
        } else if json::text_less(last.spec.name, server.spec.name) {
            assert forall|i: int, j: int| 0 <= i < j < after.len() implies json::text_less(
                (#[trigger] after[i]).spec.name,
                (#[trigger] after[j]).spec.name,
            ) by {
                if j == servers.len() {
                    if i < front.len() {
                        assert(after[i] == front[i]);
                        json::lemma_text_less_transitive(
                            front[i].spec.name,
                            last.spec.name,
                            server.spec.name,
                        );
                    }
                } else {
                    assert(after[i] == servers[i] && after[j] == servers[j]);
                }
            }
            assert forall|i: int| 0 <= i < after.len() implies ((#[trigger] after[i]) == server
                || exists|j: int| 0 <= j < servers.len() && servers[j] == after[i]) by {
                if i < servers.len() {
                    assert(servers[i] == after[i]);
                }
            }
        } else {
            lemma_placed_in_order(front, server);
            json::lemma_text_less_total(last.spec.name, server.spec.name);
            let start = placed(front, server);
            assert forall|i: int| 0 <= i < start.len() implies json::text_less(
                (#[trigger] start[i]).spec.name,
                last.spec.name,
            ) by {
                if start[i] != server {
                    let j = choose|j: int| 0 <= j < front.len() && front[j] == start[i];
                    assert(json::text_less(front[j].spec.name, last.spec.name));
                }
            }
            assert forall|i: int, j: int| 0 <= i < j < after.len() implies json::text_less(
                (#[trigger] after[i]).spec.name,
                (#[trigger] after[j]).spec.name,
            ) by {
                assert(after[i] == start[i]);
                if j < start.len() {
                    assert(after[j] == start[j]);
                }
            }
            assert forall|i: int| 0 <= i < after.len() implies ((#[trigger] after[i]) == server
                || exists|j: int| 0 <= j < servers.len() && servers[j] == after[i]) by {
                if i < start.len() {
                    assert(after[i] == start[i]);
                    if start[i] != server {
                        let j = choose|j: int| 0 <= j < front.len() && front[j] == start[i];
                        assert(servers[j] == after[i]);
                    }
                } else {
                    assert(servers[servers.len() - 1] == after[i]);
                }
            }
        }
    }
}

proof fn lemma_reconciled_in_order(
    servers: Seq<ServerView>,
    next_entry: u64,
    specs: Seq<SpecView>,
)
    ensures
        names_in_order(reconciled(servers, next_entry, specs).0),
    decreases specs.len(),
{
    if specs.len() > 0 {
        lemma_reconciled_in_order(servers, next_entry, specs.drop_last());
        let before = reconciled(servers, next_entry, specs.drop_last());
        let spec = specs.last();
        match position(servers, spec.name) {
            Some(i) => {
                lemma_placed_in_order(before.0, servers[i]);
            },
            None => {},
        }
        lemma_placed_in_order(before.0, fresh(before.1, spec));
    }
}

impl McpManager {
    /// The servers of a configuration; none is connected.
    pub fn new(specs: Vec<McpServerSpec>) -> (r: McpManager)
        ensures
            r@ == (ManagerView {
                servers: reconciled(Seq::empty(), 0, spec::spec_views(specs@)).0,
                departed: Seq::empty(),
                next_entry: reconciled(Seq::empty(), 0, spec::spec_views(specs@)).1,
                revision: 0,
            }),
            r@.wf(),
    {
        proof {
            lemma_reconciled_in_order(Seq::empty(), 0, spec::spec_views(specs@));
        }
        let servers: Vec<ServerEntry> = Vec::new();
        let departed: Vec<ServerEntry> = Vec::new();
        assert(server_views(servers@) =~= Seq::empty());
        assert(server_views(departed@) =~= Seq::empty());
        let mut manager = McpManager { servers, departed, next_entry: 0, revision: 0 };
        manager.configure(&specs);
        manager
    }

    /// Takes the servers of a configuration, keeping those that stay the same.
    fn configure(&mut self, specs: &Vec<McpServerSpec>)
        ensures
            final(self)@ == (ManagerView {
                servers: reconciled(
                    old(self)@.servers,
                    old(self)@.next_entry,
                    spec::spec_views(specs@),
                ).0,
                next_entry: reconciled(
                    old(self)@.servers,
                    old(self)@.next_entry,
                    spec::spec_views(specs@),
                ).1,
                ..old(self)@
            }),
    {
        let ghost all = spec::spec_views(specs@);
        let ghost current = self@.servers;
        let ghost start = self@.next_entry;
        let mut servers: Vec<ServerEntry> = Vec::new();
        let mut next_entry: u64 = self.next_entry;
        let mut k: usize = 0;
        assert(server_views(servers@) =~= Seq::empty());
        assert(all.take(0) =~= Seq::empty());
        while k < specs.len()
            invariant
                k <= specs@.len(),
                all == spec::spec_views(specs@),
                *self == *old(self),
                current == server_views(self.servers@),
                start == old(self)@.next_entry,
                reconciled(current, start, all.take(k as int)) == (
                    server_views(servers@),
                    next_entry,
                ),
            decreases specs@.len() - k,
        {
            assert(all.take(k + 1).drop_last() =~= all.take(k as int));
            assert(all.take(k + 1).last() == specs@[k as int]@);
            let kept = match place_of(&self.servers, specs[k].name.as_str()) {
                Some(i) => if self.servers[i].spec.same(&specs[k]) {
                    Some(copy_entry(&self.servers[i]))
                } else {
                    None
                },
                None => None,
            };
            match kept {
                Some(server) => {
                    put(&mut servers, server);
                },
                None => {
                    put(&mut servers, fresh_entry(next_entry, specs[k].copy()));
                    next_entry = next_entry.wrapping_add(1);
                },
            }
            k = k + 1;
        }
        assert(all.take(all.len() as int) =~= all);
        self.servers = servers;
        self.next_entry = next_entry;
    }

    fn bump(&mut self)
        ensures
            final(self)@ == old(self)@.bumped(),
    {
        self.revision = self.revision.wrapping_add(1);
    }

    pub fn is_empty(&self) -> (r: bool)
        ensures
            r == (self@.servers.len() == 0),
    {
        self.servers.len() == 0
    }

    pub fn has_enabled_servers(&self) -> (r: bool)
        ensures
            r == exists|i: int|
                0 <= i < self@.servers.len() && (#[trigger] self@.servers[i]).spec.enabled,
    {
        let ghost all = self@.servers;
        let mut i: usize = 0;
        while i < self.servers.len()
            invariant
                i <= self.servers.len(),
                all == server_views(self.servers@),
                forall|k: int| 0 <= k < i ==> !(#[trigger] all[k]).spec.enabled,
            decreases self.servers.len() - i,
        {
            if self.servers[i].spec.enabled {
                assert(all[i as int].spec.enabled);
                return true;
            }
            i = i + 1;
        }
        false
    }

    pub fn revision(&self) -> (r: u64)
        ensures
            r == self@.revision,
    {
        self.revision
    }

    /// The credentials of all servers, which must never be shown.
    pub fn sensitive_values(&self) -> (r: Vec<String>)
        ensures
            text::texts(r@) == all_secrets(self@.servers),
    {
        let ghost all = self@.servers;
        let mut out: Vec<String> = Vec::new();
        let mut i: usize = 0;
        assert(all.take(0) =~= Seq::empty());
        assert(text::texts(out@) =~= Seq::empty());
        while i < self.servers.len()
            invariant
                i <= self.servers.len(),
                all == server_views(self.servers@),
                text::texts(out@) == all_secrets(all.take(i as int)),
            decreases self.servers.len() - i,
        {
            let mut more = self.servers[i].spec.transport.sensitive_values();
            let ghost added = more@;
            let ghost done = out@;
            assert(all.take(i + 1).drop_last() =~= all.take(i as int));
            assert(all.take(i + 1).last() == self.servers@[i as int]@);
            out.append(&mut more);
            assert(text::texts(out@) =~= text::texts(done) + text::texts(added));
            i = i + 1;
        }
        assert(all.take(all.len() as int) =~= all);
        out
    }

    /// Takes a new configuration; gives the connections to be dropped.
    pub fn reconcile(&mut self, specs: Vec<McpServerSpec>) -> (r: Vec<u64>)
        ensures
            r@ == dropped(old(self)@.servers, spec::spec_views(specs@)),
            final(self)@ == old(self)@.configured(spec::spec_views(specs@)).bumped(),
            final(self)@.wf(),
    {
        let ghost all = self@.servers;
        let ghost wanted = spec::spec_views(specs@);
        let ghost gone = self@.departed;
        proof {
            lemma_reconciled_in_order(all, self@.next_entry, wanted);
        }
        let mut out: Vec<u64> = Vec::new();
        let mut i: usize = 0;
        assert(all.take(0) =~= Seq::empty());
        while i < self.servers.len()
            invariant
                i <= self.servers.len(),
                self.servers == old(self).servers,
                self.next_entry == old(self).next_entry,
                self.revision == old(self).revision,
                all == server_views(self.servers@),
                wanted == spec::spec_views(specs@),
                out@ == dropped(all.take(i as int), wanted),
                server_views(self.departed@) == all_departed(all.take(i as int), wanted, gone),
            decreases self.servers.len() - i,
        {
            assert(all.take(i + 1).drop_last() =~= all.take(i as int));
            assert(all.take(i + 1).last() == self.servers@[i as int]@);
            if !is_kept(&specs, &self.servers[i]) {
                if self.servers[i].holders > 0 {
                    let ghost before = self.departed@;
                    let server = copy_entry(&self.servers[i]);
                    self.departed.push(server);
                    assert(server_views(self.departed@) =~= server_views(before).push(server@));
                } else {
                    match self.servers[i].connection {
                        Some(connection) => {
                            out.push(connection);
                        },
                        None => {},
                    }
                }
            }
            i = i + 1;
        }
        assert(all.take(all.len() as int) =~= all);
        self.configure(&specs);
        self.bump();
        out
    }

    /// All servers, for status surfaces.
    pub fn statuses(&self) -> (r: Vec<McpServerInfo>)
        ensures
            spec::info_views(r@) == server_infos(self@.servers),
    {
        let ghost all = server_infos(self@.servers);
        let mut out: Vec<McpServerInfo> = Vec::new();
        let mut i: usize = 0;
        assert(spec::info_views(out@) =~= all.take(0));
        while i < self.servers.len()
            invariant
                i <= self.servers.len(),
                all == server_infos(server_views(self.servers@)),
                spec::info_views(out@) == all.take(i as int),
            decreases self.servers.len() - i,
        {
            let server = &self.servers[i];
            let info = McpServerInfo {
                name: server.spec.name.clone(),
                transport: server.spec.transport.kind(),
                target: server.spec.transport.target(),
                enabled: server.spec.enabled,
                status: server.status.copy(),
            };
            let ghost done = out@;
            out.push(info);
            assert(info@ =~= server_info(server@));
            assert(spec::info_views(out@) =~= spec::info_views(done).push(info@));
            assert(all.take(i + 1) =~= all.take(i as int).push(all[i as int]));
            i = i + 1;
        }
        assert(all.take(all.len() as int) =~= all);
        out
    }

    fn line(server: &ServerEntry) -> (r: String)
        ensures
            r@ == server_line(server@),
    {
        let mut out = server.spec.name.clone();
        out.append(" [");
        out.append(server.spec.transport.kind());
        out.append("] ");
        match &server.status {
            McpServerStatus::Disabled => out.append("disabled"),
            McpServerStatus::Disconnected => out.append("disconnected"),
            McpServerStatus::Connecting => out.append("connecting"),
            McpServerStatus::Ready { tools } => {
                let mut state = "ready, ".to_owned();
                state.append(text::decimal_of(tools.len() as u64).as_str());
                state.append(" tools");
                out.append(state.as_str());
            },
            McpServerStatus::Failed { error } => {
                let mut state = "failed: ".to_owned();
                state.append(error.as_str());
                out.append(state.as_str());
            },
        }
        out
    }

    /// The servers, for the model. Nothing is connected for it.
    pub fn list_servers(&self) -> (r: String)
        ensures
            r@ == servers_text(self@.servers),
    {
        let ghost all = self@.servers;
        let ghost lines = server_lines(all);
        if self.servers.len() == 0 {
            return "no MCP servers configured".to_owned();
        }
        let count: usize = if self.servers.len() <= MAX_LIST_SERVERS {
            self.servers.len()
        } else {
            MAX_LIST_SERVERS
        };
        let mut out: Vec<String> = Vec::new();
        let mut i: usize = 0;
        assert(text::texts(out@) =~= lines.take(0));
        while i < count
            invariant
                i <= count <= self.servers.len(),
                all == server_views(self.servers@),
                lines == server_lines(all),
                text::texts(out@) == lines.take(i as int),
            decreases count - i,
        {
            let line = Self::line(&self.servers[i]);
            let ghost done = out@;
            out.push(line);
            assert(text::texts(out@) =~= text::texts(done).push(line@));
            assert(lines.take(i + 1) =~= lines.take(i as int).push(lines[i as int]));
            i = i + 1;
        }
        if self.servers.len() > MAX_LIST_SERVERS {
            let mut more = "… ".to_owned();
            more.append(
                text::decimal_of((self.servers.len() - MAX_LIST_SERVERS) as u64).as_str(),
            );
            more.append(" more servers");
            let ghost done = out@;
            out.push(more);
            assert(lines.take(MAX_LIST_SERVERS as int) =~= server_lines(
                all.take(MAX_LIST_SERVERS as int),
            ));
            assert(text::texts(out@) =~= text::texts(done).push(more@));
        } else {
            assert(lines.take(all.len() as int) =~= lines);
        }
        text::joined(&out, "\n")
    }

    /// Takes note of a server that leaves the list; gives the connection to be
    /// dropped with it.
    fn depart(&mut self, server: ServerEntry) -> (r: Option<u64>)
        ensures
            r == freed(server@),
            final(self)@ == (ManagerView {
                departed: with_departed(old(self)@.departed, server@),
                ..old(self)@
            }),
    {
        if server.holders > 0 {
            let ghost before = self.departed@;
            self.departed.push(server);
            assert(server_views(self.departed@) =~= server_views(before).push(server@));
            None
        } else {
            server.connection
        }
    }

    /// Removes a server; gives the connection to be dropped, and whether there
    /// was such a server.
    pub fn remove(&mut self, name: &str) -> (r: (bool, Option<u64>))
        ensures
            match position(old(self)@.servers, name@) {
                Some(i) => r == (true, freed(old(self)@.servers[i])) && final(self)@ == old(
                    self,
                )@.without(i).bumped(),
                None => r == (false, None::<u64>) && final(self)@ == old(self)@,
            },
            old(self)@.wf() ==> final(self)@.wf(),
    {
        match place_of(&self.servers, name) {
            None => (false, None),
            Some(i) => {
                let ghost before = self@.servers;
                proof {
                    if self@.wf() {
                        lemma_removed_in_order(before, i as int);
                    }
                }
                let server = self.servers.remove(i);
                assert(server_views(self.servers@) =~= before.remove(i as int));
                let connection = self.depart(server);
                self.bump();
                (true, connection)
            },
        }
    }

    /// Puts a server in its place; gives the connection to be dropped.
    fn enter(&mut self, server: ServerEntry) -> (r: Option<u64>)
        ensures
            r == (match position(old(self)@.servers, server@.spec.name) {
                Some(i) => freed(old(self)@.servers[i]),
                None => None,
            }),
            final(self)@ == old(self)@.entered(server@).bumped(),
            old(self)@.wf() ==> final(self)@.wf(),
    {
        proof {
            if self@.wf() {
                lemma_placed_in_order(self@.servers, server@);
            }
        }
        let replaced = match place_of(&self.servers, server.spec.name.as_str()) {
            Some(i) => {
                let leaving = copy_entry(&self.servers[i]);
                self.depart(leaving)
            },
            None => None,
        };
        put(&mut self.servers, server);
        self.next_entry = self.next_entry.wrapping_add(1);
        self.bump();
        replaced
    }

    /// Adds or replaces a server; one whose configuration stays the same keeps
    /// its connection. Gives the connection to be dropped.
    pub fn upsert(&mut self, spec: McpServerSpec) -> (r: Option<u64>)
        ensures
            ({
                let at = position(old(self)@.servers, spec@.name);
                if at is Some && old(self)@.servers[at->0].spec == spec@ {
                    r is None && final(self)@ == old(self)@
                } else {
                    &&& r == if at is Some {
                        freed(old(self)@.servers[at->0])
                    } else {
                        None
                    }
                    &&& final(self)@ == old(self)@.entered(
                        fresh(old(self)@.next_entry, spec@),
                    ).bumped()
                }
            }),
            old(self)@.wf() ==> final(self)@.wf(),
    {
        match place_of(&self.servers, spec.name.as_str()) {
            None => {},
            Some(i) => {
                if self.servers[i].spec.same(&spec) {
                    return None;
                }
            },
        }
        self.enter(fresh_entry(self.next_entry, spec))
    }

    /// Adds or replaces a server, with a connection that is there already. Gives
    /// the connection to be dropped.
    pub fn insert_connection(
        &mut self,
        spec: McpServerSpec,
        connection: u64,
        tools: Vec<McpToolSummary>,
    ) -> (r: Option<u64>)
        ensures
            r == (match position(old(self)@.servers, spec@.name) {
                Some(i) => freed(old(self)@.servers[i]),
                None => None,
            }),
            final(self)@ == old(self)@.entered(
                ServerView {
                    entry: old(self)@.next_entry,
                    spec: spec@,
                    status: StatusView::Ready { tools: spec::tool_views(tools@) },
                    connection: Some(connection),
                    generation: 0,
                    holders: 0,
                },
            ).bumped(),
            old(self)@.wf() ==> final(self)@.wf(),
    {
        let server = ServerEntry {
            entry: self.next_entry,
            spec,
            status: McpServerStatus::Ready { tools },
            connection: Some(connection),
            generation: 0,
            holders: 0,
        };
        self.enter(server)
    }

    fn update(
        &mut self,
        i: usize,
        status: McpServerStatus,
        connection: Option<u64>,
        generation: u64,
    )
        requires
            i < old(self)@.servers.len(),
        ensures
            final(self)@ == old(self)@.set(
                i as int,
                ServerView {
                    status: status@,
                    connection,
                    generation,
                    ..old(self)@.servers[i as int]
                },
            ),
    {
        let ghost before = self@.servers;
        let server = changed(&self.servers[i], status, connection, generation);
        let ghost new = server@;
        self.servers.set(i, server);
        assert(server_views(self.servers@) =~= before.update(i as int, new));
    }

    /// The server of an entry.
    fn find(&self, entry: u64) -> (r: Option<&ServerEntry>)
        ensures
            match r {
                Some(server) => self@.known(entry) == Some(server@),
                None => self@.known(entry) is None,
            },
    {
        match place_of_entry(&self.servers, entry) {
            Some(i) => Some(&self.servers[i]),
            None => match place_of_entry(&self.departed, entry) {
                Some(i) => Some(&self.departed[i]),
                None => None,
            },
        }
    }

    /// Changes how the server of an entry stands.
    fn amend(&mut self, entry: u64, status: McpServerStatus, connection: Option<u64>)
        ensures
            final(self)@ == (match old(self)@.known(entry) {
                Some(server) => old(self)@.amended(
                    entry,
                    ServerView { status: status@, connection, ..server },
                ),
                None => old(self)@,
            }),
    {
        match place_of_entry(&self.servers, entry) {
            Some(i) => {
                let generation: u64 = self.servers[i].generation;
                self.update(i, status, connection, generation);
            },
            None => match place_of_entry(&self.departed, entry) {
                Some(i) => {
                    let ghost before = self@.departed;
                    let generation: u64 = self.departed[i].generation;
                    let server = changed(&self.departed[i], status, connection, generation);
                    let ghost new = server@;
                    self.departed.set(i, server);
                    assert(server_views(self.departed@) =~= before.update(i as int, new));
                },
                None => {},
            },
        }
    }

    /// The entry of a server, for one who works with it. The server stays known
    /// under this number until it is let go.
    pub fn hold(&mut self, name: &str) -> (r: Result<u64, McpError>)
        ensures
            match position(old(self)@.servers, name@) {
                Some(i) => r == Ok::<u64, McpError>(old(self)@.servers[i].entry) && final(self)@
                    == old(self)@.set(i, held(old(self)@.servers[i])),
                None => r matches Err(error) && error@ == McpErrorView::UnknownServer(name@)
                    && final(self)@ == old(self)@,
            },
            old(self)@.wf() ==> final(self)@.wf(),
    {
        match place_of(&self.servers, name) {
            Some(i) => {
                let ghost before = self@.servers;
                let mut server = copy_entry(&self.servers[i]);
                server.holders = server.holders.saturating_add(1);
                let ghost new = server@;
                let entry: u64 = server.entry;
                self.servers.set(i, server);
                assert(server_views(self.servers@) =~= before.update(i as int, new));
                Ok(entry)
            },
            None => Err(McpError::UnknownServer(name.to_owned())),
        }
    }

    /// Lets a server go. The last who does so takes one that left the list with
    /// it; gives the connection to be dropped then.
    pub fn release(&mut self, entry: u64) -> (r: Option<u64>)
        ensures
            r == old(self)@.freed_by_release(entry),
            final(self)@ == old(self)@.released(entry),
            old(self)@.wf() ==> final(self)@.wf(),
    {
        match place_of_entry(&self.servers, entry) {
            Some(i) => {
                let ghost before = self@.servers;
                let mut server = copy_entry(&self.servers[i]);
                server.holders = fewer(server.holders);
                let ghost new = server@;
                self.servers.set(i, server);
                assert(server_views(self.servers@) =~= before.update(i as int, new));
                None
            },
            None => match place_of_entry(&self.departed, entry) {
                Some(i) => {
                    let ghost before = self@.departed;
                    let mut server = copy_entry(&self.departed[i]);
                    server.holders = fewer(server.holders);
                    if server.holders == 0 {
                        let gone = self.departed.remove(i);
                        assert(server_views(self.departed@) =~= before.remove(i as int));
                        gone.connection
                    } else {
                        let ghost new = server@;
                        self.departed.set(i, server);
                        assert(server_views(self.departed@) =~= before.update(i as int, new));
                        None
                    }
                },
                None => None,
            },
        }
    }

    /// The connection that a server has.
    pub fn connection_of(&self, entry: u64) -> (r: Option<u64>)
        ensures
            r == (match self@.known(entry) {
                Some(server) => server.connection,
                None => None,
            }),
    {
        match self.find(entry) {
            Some(server) => server.connection,
            None => None,
        }
    }

    /// How a server is configured.
    pub fn spec_of(&self, entry: u64) -> (r: Option<McpServerSpec>)
        ensures
            (match (r, self@.known(entry)) {
                (Some(spec), Some(server)) => spec@ == server.spec,
                (None, None) => true,
                _ => false,
            }),
    {
        match self.find(entry) {
            Some(server) => Some(server.spec.copy()),
            None => None,
        }
    }

    /// What a use of a server needs; `alive` tells whether the connection that
    /// the server has, if any, still serves.
    pub fn begin_connect(&mut self, entry: u64, alive: bool) -> (r: Result<ConnectStep, McpError>)
        ensures
            match old(self)@.known(entry) {
                None => r == Err::<ConnectStep, McpError>(McpError::Closed) && final(self)@ == old(
                    self,
                )@,
                Some(server) => if !server.spec.enabled {
                    &&& r matches Err(error) && error@ == McpErrorView::Disabled(server.spec.name)
                    &&& final(self)@ == old(self)@.amended(
                        entry,
                        ServerView { status: StatusView::Disabled, ..server },
                    ).bumped()
                } else if server.connection is Some && alive {
                    &&& r == Ok::<ConnectStep, McpError>(
                        ConnectStep::Reuse { connection: server.connection->0 },
                    )
                    &&& final(self)@ == old(self)@
                } else {
                    &&& r == Ok::<ConnectStep, McpError>(
                        ConnectStep::Connect {
                            generation: server.generation,
                            dead: server.connection,
                        },
                    )
                    &&& final(self)@ == old(self)@.amended(
                        entry,
                        ServerView { status: StatusView::Connecting, connection: None, ..server },
                    ).bumped()
                },
            },
            old(self)@.wf() ==> final(self)@.wf(),
    {
        proof {
            lemma_known(self@, entry);
        }
        let (generation, connection, enabled, name) = match self.find(entry) {
            None => {
                return Err(McpError::Closed);
            },
            Some(server) => (
                server.generation,
                server.connection,
                server.spec.enabled,
                server.spec.name.clone(),
            ),
        };
        if !enabled {
            self.amend(entry, McpServerStatus::Disabled, connection);
            self.bump();
            return Err(McpError::Disabled(name));
        }
        match connection {
            Some(connection) => {
                if alive {
                    return Ok(ConnectStep::Reuse { connection });
                }
            },
            None => {},
        }
        self.amend(entry, McpServerStatus::Connecting, None);
        self.bump();
        Ok(ConnectStep::Connect { generation, dead: connection })
    }

    /// Takes the result of a handshake that began under a generation. Where the
    /// server was given up meanwhile, nothing of it is published, and a
    /// connection is to be dropped. That holds for a server that left the list
    /// meanwhile just as well.
    pub fn finish_connect(&mut self, entry: u64, generation: u64, handshake: Handshake) -> (r:
        Result<u64, McpError>)
        ensures
            match (old(self)@.known(entry), handshake) {
                (Some(server), Handshake::Connected { connection, tools }) => if server.generation
                    == generation {
                    &&& r == Ok::<u64, McpError>(connection)
                    &&& final(self)@ == old(self)@.amended(
                        entry,
                        ServerView {
                            status: StatusView::Ready { tools: spec::tool_views(tools@) },
                            connection: Some(connection),
                            ..server
                        },
                    ).bumped()
                } else {
                    r == Err::<u64, McpError>(McpError::Closed) && final(self)@ == old(self)@
                },
                (Some(server), Handshake::Failed { error }) => {
                    &&& r == Err::<u64, McpError>(error)
                    &&& final(self)@ == if server.generation == generation {
                        old(self)@.amended(
                            entry,
                            ServerView {
                                status: StatusView::Failed { error: error@.words() },
                                ..server
                            },
                        ).bumped()
                    } else {
                        old(self)@
                    }
                },
                (None, Handshake::Connected { .. }) => r == Err::<u64, McpError>(McpError::Closed)
                    && final(self)@ == old(self)@,
                (None, Handshake::Failed { error }) => r == Err::<u64, McpError>(error)
                    && final(self)@ == old(self)@,
            },
            old(self)@.wf() ==> final(self)@.wf(),
    {
        proof {
            lemma_known(self@, entry);
        }
        let (current, held): (bool, Option<u64>) = match self.find(entry) {
            None => (false, None),
            Some(server) => (server.generation == generation, server.connection),
        };
        match handshake {
            Handshake::Connected { connection, tools } => {
                if !current {
                    return Err(McpError::Closed);
                }
                self.amend(entry, McpServerStatus::Ready { tools }, Some(connection));
                self.bump();
                Ok(connection)
            },
            Handshake::Failed { error } => {
                if current {
                    let words = error.message();
                    self.amend(entry, McpServerStatus::Failed { error: words }, held);
                    self.bump();
                }
                Err(error)
            },
        }
    }

    /// The tools of a server, where they are known and the server has not said
    /// that they changed.
    pub fn cached_tools(&self, entry: u64, stale: bool) -> (r: Option<Vec<McpToolSummary>>)
        ensures
            match self@.known(entry) {
                None => r is None,
                Some(server) => match server.status {
                    StatusView::Ready { tools } => if stale {
                        r is None
                    } else {
                        r matches Some(known) && spec::tool_views(known@) == tools
                    },
                    _ => r is None,
                },
            },
    {
        match self.find(entry) {
            None => None,
            Some(server) => match &server.status {
                McpServerStatus::Ready { tools } => if stale {
                    None
                } else {
                    Some(spec::copy_tools(tools))
                },
                _ => None,
            },
        }
    }

    /// Takes the tools of a new listing.
    pub fn refreshed(&mut self, entry: u64, tools: Vec<McpToolSummary>)
        ensures
            final(self)@ == match old(self)@.known(entry) {
                None => old(self)@,
                Some(server) => old(self)@.amended(
                    entry,
                    ServerView {
                        status: StatusView::Ready { tools: spec::tool_views(tools@) },
                        ..server
                    },
                ).bumped(),
            },
            old(self)@.wf() ==> final(self)@.wf(),
    {
        proof {
            lemma_known(self@, entry);
        }
        let held: Option<u64> = match self.find(entry) {
            None => {
                return;
            },
            Some(server) => server.connection,
        };
        self.amend(entry, McpServerStatus::Ready { tools }, held);
        self.bump();
    }

    /// Gives up a connection that died under a call; a newer one is kept. Tells
    /// whether the connection is to be dropped.
    pub fn call_failed(&mut self, entry: u64, connection: u64) -> (r: bool)
        ensures
            match old(self)@.known(entry) {
                None => !r && final(self)@ == old(self)@,
                Some(server) => {
                    &&& r == (server.connection == Some(connection))
                    &&& final(self)@ == old(self)@.amended(
                        entry,
                        ServerView {
                            status: StatusView::Disconnected,
                            connection: if r {
                                None
                            } else {
                                server.connection
                            },
                            ..server
                        },
                    ).bumped()
                },
            },
            old(self)@.wf() ==> final(self)@.wf(),
    {
        proof {
            lemma_known(self@, entry);
        }
        let held: Option<u64> = match self.find(entry) {
            None => {
                return false;
            },
            Some(server) => server.connection,
        };
        let taken = match held {
            Some(c) => c == connection,
            None => false,
        };
        let left: Option<u64> = if taken {
            None
        } else {
            held
        };
        self.amend(entry, McpServerStatus::Disconnected, left);
        self.bump();
        taken
    }

    /// Gives up a server's connection before a new one is made.
    pub fn begin_reconnect(&mut self, entry: u64) -> (r: Option<u64>)
        ensures
            match old(self)@.known(entry) {
                None => r is None && final(self)@ == old(self)@,
                Some(server) => {
                    &&& r == server.connection
                    &&& final(self)@ == old(self)@.amended(
                        entry,
                        ServerView { status: StatusView::Disconnected, connection: None, ..server },
                    )
                },
            },
            old(self)@.wf() ==> final(self)@.wf(),
    {
        proof {
            lemma_known(self@, entry);
        }
        let held: Option<u64> = match self.find(entry) {
            None => {
                return None;
            },
            Some(server) => server.connection,
        };
        self.amend(entry, McpServerStatus::Disconnected, None);
        held
    }

    /// Gives up a server's connection and any handshake that is under way.
    pub fn disconnect(&mut self, name: &str) -> (r: Result<Option<u64>, McpError>)
        ensures
            match position(old(self)@.servers, name@) {
                None => r matches Err(error) && error@ == McpErrorView::UnknownServer(name@)
                    && final(self)@ == old(self)@,
                Some(i) => {
                    &&& r == Ok::<Option<u64>, McpError>(old(self)@.servers[i].connection)
                    &&& final(self)@ == old(self)@.set(
                        i,
                        disconnected(old(self)@.servers[i]),
                    ).bumped()
                },
            },
            old(self)@.wf() ==> final(self)@.wf(),
    {
        match place_of(&self.servers, name) {
            None => Err(McpError::UnknownServer(name.to_owned())),
            Some(i) => {
                let held: Option<u64> = self.servers[i].connection;
                let generation: u64 = self.servers[i].generation.wrapping_add(1);
                let status = idle(self.servers[i].spec.enabled);
                self.update(i, status, None, generation);
                self.bump();
                Ok(held)
            },
        }
    }

    /// Gives up every connection and every handshake; the servers stay listed.
    pub fn disconnect_all(&mut self) -> (r: Vec<u64>)
        ensures
            r@ == connections(old(self)@.servers),
            final(self)@ == (ManagerView {
                servers: all_shut_down(old(self)@.servers),
                ..old(self)@
            }).bumped(),
            old(self)@.wf() ==> final(self)@.wf(),
    {
        let ghost all = self@.servers;
        let ghost start = self@;
        let mut out: Vec<u64> = Vec::new();
        let mut i: usize = 0;
        assert(all.take(0) =~= Seq::empty());
        assert(all =~= all_shut_down(all).take(0) + all.skip(0));
        while i < self.servers.len()
            invariant
                i <= self.servers.len(),
                all.len() == self.servers.len(),
                self@.departed == start.departed,
                self@.next_entry == start.next_entry,
                self@.revision == start.revision,
                self@.servers == all_shut_down(all).take(i as int) + all.skip(i as int),
                out@ == connections(all.take(i as int)),
            decreases self.servers.len() - i,
        {
            assert(all.take(i + 1).drop_last() =~= all.take(i as int));
            assert(all.take(i + 1).last() == all[i as int]);
            assert(self@.servers[i as int] == all[i as int]);
            match self.servers[i].connection {
                Some(connection) => {
                    out.push(connection);
                },
                None => {},
            }
            let generation: u64 = self.servers[i].generation.wrapping_add(1);
            let status = if self.servers[i].spec.enabled {
                McpServerStatus::Disconnected
            } else {
                self.servers[i].status.copy()
            };
            let ghost before = self@.servers;
            self.update(i, status, None, generation);
            assert(self@.servers =~= all_shut_down(all).take(i + 1) + all.skip(i + 1));
            i = i + 1;
        }
        assert(self@.servers =~= all_shut_down(all));
        assert(all.take(all.len() as int) =~= all);
        self.bump();
        out
    }
}

/// Whether a request that changes nothing may be made once more on a new
/// connection: only where the transport died under it.
pub fn may_reconnect(error: &McpError, closed: bool) -> (r: bool)
    ensures
        r == (closed && (error is Closed || error is Protocol)),
{
    match error {
        McpError::Closed | McpError::Protocol(_) => closed,
        _ => false,
    }
}

/// That a server leaves the list does not bring a handshake back to life: while
/// somebody works with it, it is known with the generation that it had.
pub proof fn law_departed_servers_keep_their_generation(manager: ManagerView, i: int)
    requires
        0 <= i < manager.servers.len(),
        manager.servers[i].holders > 0,
        entry_at(manager.servers.remove(i), manager.servers[i].entry) is None,
    ensures
        manager.without(i).known(manager.servers[i].entry) == Some(manager.servers[i]),
{
}

/// A handshake that began before a server was given up cannot publish its
/// connection, however it ends: giving a server up steps its generation.
pub proof fn law_disconnect_outdates_handshakes(server: ServerView)
    ensures
        disconnected(server).generation != server.generation,
        disconnected(server).connection is None,
        shut_down(server).generation != server.generation,
        shut_down(server).connection is None,
{
}

} // verus!
