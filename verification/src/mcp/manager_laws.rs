//! What becomes of servers and their connections when the configuration changes.
use vstd::prelude::*;
use vstd::string::*;

use crate::json;
use crate::mcp::manager;
use crate::mcp::manager::ServerView;
use crate::mcp::spec::SpecView;
use crate::text;

verus! {

/// Whether none of the servers has the name.
spec fn unnamed(servers: Seq<ServerView>, name: Seq<char>) -> bool {
    forall|i: int| 0 <= i < servers.len() ==> (#[trigger] servers[i]).spec.name != name
}

proof fn lemma_placed(servers: Seq<ServerView>, server: ServerView)
    requires
        unnamed(servers, server.spec.name),
    ensures
        manager::placed(servers, server).len() == servers.len() + 1,
        manager::placed(servers, server).contains(server),
        forall|x: ServerView| #[trigger]
            servers.contains(x) ==> manager::placed(servers, server).contains(x),
        forall|i: int|
            0 <= i < manager::placed(servers, server).len() ==> (#[trigger] manager::placed(
                servers,
                server,
            )[i]) == server || servers.contains(manager::placed(servers, server)[i]),
    decreases servers.len(),
{
    let all = manager::placed(servers, server);
    if servers.len() == 0 {
        assert(all[0] == server);
    } else {
        let front = servers.drop_last();
        let last = servers.last();
        assert(last.spec.name != server.spec.name);
        assert(forall|i: int| 0 <= i < front.len() ==> front[i] == servers[i]);
        assert(unnamed(front, server.spec.name));
        if json::text_less(last.spec.name, server.spec.name) {
            assert(all[servers.len() as int] == server);
            assert forall|x: ServerView| #[trigger] servers.contains(x) implies all.contains(x) by {
                let i = choose|i: int| 0 <= i < servers.len() && servers[i] == x;
                assert(all[i] == x);
            }
            assert forall|i: int| 0 <= i < all.len() implies (#[trigger] all[i]) == server
                || servers.contains(all[i]) by {
                if i < servers.len() {
                    assert(all[i] == servers[i]);
                }
            }
        } else {
            lemma_placed(front, server);
            let inner = manager::placed(front, server);
            assert(all == inner.push(last));
            assert(all[inner.len() as int] == last);
            assert(all.contains(server)) by {
                let i = choose|i: int| 0 <= i < inner.len() && inner[i] == server;
                assert(all[i] == server);
            }
            assert forall|x: ServerView| #[trigger] servers.contains(x) implies all.contains(x) by {
                let i = choose|i: int| 0 <= i < servers.len() && servers[i] == x;
                if i < front.len() {
                    assert(front[i] == x);
                    assert(front.contains(x));
                    let j = choose|j: int| 0 <= j < inner.len() && inner[j] == x;
                    assert(all[j] == x);
                } else {
                    assert(all[inner.len() as int] == x);
                }
            }
            assert forall|i: int| 0 <= i < all.len() implies (#[trigger] all[i]) == server
                || servers.contains(all[i]) by {
                if i < inner.len() {
                    assert(all[i] == inner[i]);
                    if inner[i] != server {
                        let j = choose|j: int| 0 <= j < front.len() && front[j] == inner[i];
                        assert(servers[j] == all[i]);
                    }
                } else {
                    assert(servers[servers.len() - 1] == all[i]);
                }
            }
        }
    }
}

/// Whether no two specifications share a name.
pub open spec fn distinct(specs: Seq<SpecView>) -> bool {
    forall|i: int, j: int|
        0 <= i < j < specs.len() ==> (#[trigger] specs[i]).name != (#[trigger] specs[j]).name
}

/// What a configured server is: as it was where its specification is the same, else
/// new and without a connection.
pub open spec fn carried_over(servers: Seq<ServerView>, spec: SpecView, server: ServerView) -> bool {
    &&& server.spec == spec
    &&& match manager::position(servers, spec.name) {
        Some(i) => if servers[i].spec == spec {
            server == servers[i]
        } else {
            server.connection is None && server.generation == 0 && server.holders == 0
        },
        None => server.connection is None && server.generation == 0 && server.holders == 0,
    }
}

/// A new configuration leaves exactly the servers that it names: one that it names as
/// before stays as it was, with its connection; any other starts anew.
pub proof fn law_reconciling_keeps_unchanged_servers(
    servers: Seq<ServerView>,
    next_entry: u64,
    specs: Seq<SpecView>,
)
    requires
        distinct(specs),
    ensures
        ({
            let after = manager::reconciled(servers, next_entry, specs).0;
            &&& after.len() == specs.len()
            &&& forall|j: int|
                0 <= j < specs.len() ==> exists|i: int|
                    0 <= i < after.len() && carried_over(
                        servers,
                        #[trigger] specs[j],
                        #[trigger] after[i],
                    )
            &&& forall|i: int|
                0 <= i < after.len() ==> exists|j: int|
                    0 <= j < specs.len() && carried_over(
                        servers,
                        #[trigger] specs[j],
                        #[trigger] after[i],
                    )
        }),
    decreases specs.len(),
{
    let after = manager::reconciled(servers, next_entry, specs).0;
    if specs.len() > 0 {
        let front = specs.drop_last();
        let spec = specs.last();
        assert(forall|j: int| 0 <= j < front.len() ==> front[j] == specs[j]);
        law_reconciling_keeps_unchanged_servers(servers, next_entry, front);
        let before = manager::reconciled(servers, next_entry, front);
        let own = match manager::position(servers, spec.name) {
            Some(i) => if servers[i].spec == spec {
                servers[i]
            } else {
                manager::fresh(before.1, spec)
            },
            None => manager::fresh(before.1, spec),
        };
        assert(after == manager::placed(before.0, own));
        assert(carried_over(servers, spec, own));
        assert(unnamed(before.0, own.spec.name)) by {
            assert forall|i: int| 0 <= i < before.0.len() implies (
            #[trigger] before.0[i]).spec.name != own.spec.name by {
                let j = choose|j: int|
                    0 <= j < front.len() && carried_over(
                        servers,
                        #[trigger] front[j],
                        before.0[i],
                    );
                assert(specs[j].name != specs[specs.len() - 1].name);
            }
        }
        lemma_placed(before.0, own);
        assert forall|j: int| 0 <= j < specs.len() implies exists|i: int|
            0 <= i < after.len() && carried_over(
                servers,
                #[trigger] specs[j],
                #[trigger] after[i],
            ) by {
            if j < front.len() {
                assert(front[j] == specs[j]);
                let i = choose|i: int|
                    0 <= i < before.0.len() && carried_over(
                        servers,
                        front[j],
                        #[trigger] before.0[i],
                    );
                assert(before.0.contains(before.0[i]));
                let k = choose|k: int| 0 <= k < after.len() && after[k] == before.0[i];
                assert(carried_over(servers, specs[j], after[k]));
            } else {
                let k = choose|k: int| 0 <= k < after.len() && after[k] == own;
                assert(carried_over(servers, specs[j], after[k]));
            }
        }
        assert forall|i: int| 0 <= i < after.len() implies exists|j: int|
            0 <= j < specs.len() && carried_over(
                servers,
                #[trigger] specs[j],
                #[trigger] after[i],
            ) by {
            if after[i] == own {
                assert(carried_over(servers, specs[specs.len() - 1], after[i]));
            } else {
                let k = choose|k: int| 0 <= k < before.0.len() && before.0[k] == after[i];
                let j = choose|j: int|
                    0 <= j < front.len() && carried_over(
                        servers,
                        #[trigger] front[j],
                        before.0[k],
                    );
                assert(carried_over(servers, specs[j], after[i]));
            }
        }
    }
}

/// A connection is closed exactly where its server is no longer configured as it was
/// and nobody holds it.
pub proof fn law_only_unused_connections_are_closed(
    servers: Seq<ServerView>,
    specs: Seq<SpecView>,
    connection: u64,
)
    ensures
        manager::dropped(servers, specs).contains(connection) <==> exists|i: int|
            0 <= i < servers.len() && (#[trigger] servers[i]).connection == Some(connection)
                && servers[i].holders == 0 && !specs.contains(servers[i].spec),
    decreases servers.len(),
{
    let all = manager::dropped(servers, specs);
    if servers.len() > 0 {
        let front = servers.drop_last();
        let last = servers.last();
        assert(forall|i: int| 0 <= i < front.len() ==> front[i] == servers[i]);
        law_only_unused_connections_are_closed(front, specs, connection);
        let before = manager::dropped(front, specs);
        assert(manager::keeps(specs, last) <==> specs.contains(last.spec)) by {
            if specs.contains(last.spec) {
                let k = choose|k: int| 0 <= k < specs.len() && specs[k] == last.spec;
                assert(specs[k] == last.spec);
            }
        }
        let closes = last.connection is Some && last.holders == 0 && !specs.contains(last.spec);
        if closes {
            assert(all == before.push(last.connection->0));
            if before.contains(connection) {
                let k = choose|k: int| 0 <= k < before.len() && before[k] == connection;
                assert(all[k] == connection);
            }
            assert(all[before.len() as int] == last.connection->0);
            if all.contains(connection) {
                let k = choose|k: int| 0 <= k < all.len() && all[k] == connection;
                if k < before.len() {
                    assert(before[k] == connection);
                    assert(before.contains(connection));
                } else {
                    assert(servers[servers.len() - 1].connection == Some(connection));
                }
            }
        } else {
            assert(all == before);
        }
        if before.contains(connection) {
            let i = choose|i: int|
                0 <= i < front.len() && (#[trigger] front[i]).connection == Some(connection)
                    && front[i].holders == 0 && !specs.contains(front[i].spec);
            assert(servers[i].connection == Some(connection));
        }
        if exists|i: int|
            0 <= i < servers.len() && (#[trigger] servers[i]).connection == Some(connection)
                && servers[i].holders == 0 && !specs.contains(servers[i].spec) {
            let i = choose|i: int|
                0 <= i < servers.len() && (#[trigger] servers[i]).connection == Some(connection)
                    && servers[i].holders == 0 && !specs.contains(servers[i].spec);
            if i < front.len() {
                assert(front[i].connection == Some(connection));
            }
        }
    }
}

/// Holding and letting go again leaves a server as it was, short of the most holders.
pub proof fn law_letting_go_undoes_holding(server: ServerView)
    requires
        server.holders < u64::MAX - 1,
    ensures
        manager::let_go(manager::held(server)) == server,
        manager::held(server).holders == server.holders + 1,
        manager::held(server).connection == server.connection,
{
}

/// Every server that is listed is shown by its name and its status, one line each.
pub proof fn law_listed_servers_are_shown(servers: Seq<ServerView>, k: int) -> (at: int)
    requires
        0 <= k < servers.len(),
        k < manager::MAX_LIST_SERVERS,
    ensures
        text::occurs_at(
            manager::servers_text(servers),
            servers[k].spec.name + " ["@ + servers[k].spec.transport.kind() + "] "@,
            at,
        ),
{
    let shown = if servers.len() <= manager::MAX_LIST_SERVERS {
        manager::server_lines(servers)
    } else {
        manager::server_lines(servers.take(manager::MAX_LIST_SERVERS as int)).push(
            "… "@ + text::decimal((servers.len() - manager::MAX_LIST_SERVERS) as nat)
                + " more servers"@,
        )
    };
    let whole = manager::servers_text(servers);
    assert(whole == text::join(shown, "\n"@));
    assert(shown[k] == manager::server_line(servers[k]));
    text::law_joined_parts_are_there(shown, "\n"@, k);
    let at = text::part_start(shown, "\n"@, k);
    let opening = servers[k].spec.name + " ["@ + servers[k].spec.transport.kind() + "] "@;
    let line = whole.subrange(at, at + shown[k].len() as int);
    assert(opening =~= shown[k].subrange(0, opening.len() as int));
    assert(whole.subrange(at, at + opening.len() as int) =~= line.subrange(
        0,
        opening.len() as int,
    ));
    at
}

proof fn lemma_secret_kept(servers: Seq<ServerView>, i: int, value: Seq<char>)
    requires
        0 <= i < servers.len(),
        servers[i].spec.transport.secrets().contains(value),
    ensures
        manager::all_secrets(servers).contains(value),
    decreases servers.len(),
{
    let before = manager::all_secrets(servers.drop_last());
    let own = servers.last().spec.transport.secrets();
    let all = manager::all_secrets(servers);
    if i == servers.len() - 1 {
        let k = choose|k: int| 0 <= k < own.len() && own[k] == value;
        assert(all[before.len() + k] == value);
    } else {
        lemma_secret_kept(servers.drop_last(), i, value);
        let k = choose|k: int| 0 <= k < before.len() && before[k] == value;
        assert(all[k] == value);
    }
}

/// The secrets of every server are known, whichever server they belong to.
pub proof fn law_no_secret_is_forgotten(servers: Seq<ServerView>, i: int, value: Seq<char>)
    requires
        0 <= i < servers.len(),
        servers[i].spec.transport.secrets().contains(value),
    ensures
        manager::all_secrets(servers).contains(value),
{
    lemma_secret_kept(servers, i, value);
}

} // verus!
