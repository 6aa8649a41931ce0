//! What is known and shown of a server by its specification.
use vstd::prelude::*;
use vstd::string::*;

use crate::mcp::spec;
use crate::mcp::spec::{McpErrorView, TransportView};
use crate::text;

verus! {

/// Every value that belongs to a credential is known as a secret, wherever it stands.
pub proof fn law_credentials_are_secret(list: Seq<(Seq<char>, Seq<char>)>, i: int)
    requires
        0 <= i < list.len(),
        spec::credential(list[i].0),
    ensures
        spec::secrets(list).contains(list[i].1),
    decreases list.len(),
{
    let before = spec::secrets(list.drop_last());
    let all = spec::secrets(list);
    if i == list.len() - 1 {
        assert(all[before.len() as int] == list[i].1);
    } else {
        law_credentials_are_secret(list.drop_last(), i);
        let k = choose|k: int| 0 <= k < before.len() && before[k] == list[i].1;
        assert(all[k] == list[i].1);
    }
}

/// A value that belongs to no credential is no secret on its account: the secrets are
/// the values of credentials.
pub proof fn law_secrets_belong_to_credentials(list: Seq<(Seq<char>, Seq<char>)>, k: int)
    requires
        0 <= k < spec::secrets(list).len(),
    ensures
        exists|i: int|
            0 <= i < list.len() && spec::credential((#[trigger] list[i]).0) && list[i].1
                == spec::secrets(list)[k],
    decreases list.len(),
{
    let front = list.drop_last();
    let before = spec::secrets(front);
    if k < before.len() {
        law_secrets_belong_to_credentials(front, k);
        let i = choose|i: int|
            0 <= i < front.len() && spec::credential((#[trigger] front[i]).0) && front[i].1
                == before[k];
        assert(list[i] == front[i]);
        assert(spec::secrets(list)[k] == before[k]);
    } else {
        assert(list[list.len() - 1].1 == spec::secrets(list)[k]);
    }
}

/// A server that is a program is shown with its command first and every argument
/// behind it; one behind an address is shown by that address.
pub proof fn law_targets_show_what_is_started(transport: TransportView, k: int)
    ensures
        match transport {
            TransportView::Stdio { command, args, .. } => {
                &&& command.is_prefix_of(transport.target())
                &&& args.len() == 0 ==> transport.target() == command
                &&& 0 <= k < args.len() ==> text::contains(transport.target(), args[k])
            },
            TransportView::Http { url, .. } => transport.target() == url,
        },
{
    if let TransportView::Stdio { command, args, .. } = transport {
        let shown = transport.target();
        assert(command =~= shown.subrange(0, command.len() as int));
        if 0 <= k < args.len() {
            let list = text::join(args, " "@);
            let lead = command + " "@;
            text::law_joined_parts_are_there(args, " "@, k);
            let at = text::part_start(args, " "@, k);
            let part = args[k];
            assert(shown.subrange(lead.len() + at, lead.len() + at + part.len()) =~= list.subrange(
                at,
                at + part.len(),
            ));
            assert(text::occurs_at(shown, part, lead.len() + at));
        }
    }
}

/// The words of a server are told whole where they keep within their bound, else
/// their start that does.
pub proof fn law_server_words_are_told_as_far_as_they_fit(words: Seq<char>)
    ensures
        text::byte_len(words) <= spec::MAX_SERVER_MESSAGE_BYTES ==> spec::bounded_text(words)
            == words,
        text::byte_len(words) > spec::MAX_SERVER_MESSAGE_BYTES ==> exists|n: int|
            0 <= n <= words.len() && spec::bounded_text(words) == #[trigger] words.take(n) + "…"@
                && spec::MAX_SERVER_MESSAGE_BYTES - 4 < text::byte_len(words.take(n))
                <= spec::MAX_SERVER_MESSAGE_BYTES,
{
    let most = spec::MAX_SERVER_MESSAGE_BYTES as int;
    text::lemma_fitting_head(words, most);
    if text::byte_len(words) > most {
        let n = text::fitting_head(words, most) as int;
        assert(text::head_within(words, most) == words.take(n));
        if n == words.len() {
            assert(words.take(n) =~= words);
        }
    }
}

/// An error tells what it is about: the server's code and words, or the name of the
/// server that is unknown or disabled.
pub proof fn law_errors_tell_what_they_are_about(error: McpErrorView)
    ensures
        match error {
            McpErrorView::Io(words) => error.words() == words,
            McpErrorView::Protocol(words) => error.words() == words,
            McpErrorView::Server { code, message } => ("server error "@ + text::signed_decimal(
                code as int,
            )).is_prefix_of(error.words()) && message.is_suffix_of(error.words()),
            McpErrorView::UnknownServer(name) => name.is_suffix_of(error.words()),
            McpErrorView::Disabled(name) => name.is_suffix_of(error.words()),
            _ => error.words().len() > 0,
        },
{
    let words = error.words();
    match error {
        McpErrorView::Server { code, message } => {
            let lead = "server error "@ + text::signed_decimal(code as int);
            assert(lead =~= words.subrange(0, lead.len() as int));
            assert(message =~= words.subrange(words.len() - message.len(), words.len() as int));
        },
        McpErrorView::UnknownServer(name) => {
            assert(name =~= words.subrange(words.len() - name.len(), words.len() as int));
        },
        McpErrorView::Disabled(name) => {
            assert(name =~= words.subrange(words.len() - name.len(), words.len() as int));
        },
        _ => {
            reveal_strlit("connection closed");
            reveal_strlit("request timed out after ");
        },
    }
}

} // verus!
