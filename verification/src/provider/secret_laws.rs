//! What is left of a text when its secrets are taken out, and of a request when its
//! credentials are.
use vstd::prelude::*;
use vstd::string::*;

use crate::provider::endpoint;
use crate::provider::secrets;
use crate::text;
use crate::text_laws;
use crate::url;
use crate::url::UrlView;

verus! {

proof fn lemma_one_value(s: Seq<char>, v: Seq<char>)
    requires
        v.len() > 0,
    ensures
        secrets::redacted(s, seq![v]) == text::replaced(s, v, secrets::marker()),
{
    let list = seq![v];
    assert(list.drop_last() =~= Seq::<Seq<char>>::empty());
    assert(secrets::by_length(list.drop_last()) =~= Seq::<Seq<char>>::empty());
    assert(secrets::by_length(list) =~= list);
    assert(secrets::thinned(list.drop_last()) =~= Seq::<Seq<char>>::empty());
    assert(secrets::thinned(list) =~= list);
    assert(secrets::marked(s, list.drop_last()) == s);
}

proof fn lemma_replaced(a: Seq<char>, v: Seq<char>, b: Seq<char>, w: Seq<char>)
    requires
        v.len() > 0,
        forall|i: int| 0 <= i < a.len() ==> !#[trigger] text::occurs_at(a + v + b, v, i),
    ensures
        text::replaced(a + v + b, v, w) == a + w + text::replaced(b, v, w),
    decreases a.len(),
{
    let all = a + v + b;
    if a.len() == 0 {
        assert(all.subrange(0, v.len() as int) =~= v);
        assert(text::occurs_at(all, v, 0));
        assert(all.skip(v.len() as int) =~= b);
        assert(text::replaced(all, v, w) =~= a + w + text::replaced(b, v, w));
    } else {
        let rest = a.skip(1);
        assert(all.skip(1) =~= rest + v + b);
        assert(!text::occurs_at(all, v, 0));
        assert forall|i: int| 0 <= i < rest.len() implies !#[trigger] text::occurs_at(
            rest + v + b,
            v,
            i,
        ) by {
            assert(!text::occurs_at(all, v, i + 1));
            assert(all.subrange(i + 1, i + 1 + v.len()) =~= (rest + v + b).subrange(
                i,
                i + v.len(),
            ));
        }
        lemma_replaced(rest, v, b, w);
        assert(text::replaced(all, v, w) =~= a + w + text::replaced(b, v, w));
    }
}

/// Taking a secret out puts a mark in its place and leaves the text around it: what
/// stands before it stays word for word, and what follows is treated alike.
pub proof fn law_only_the_secret_is_taken_out(a: Seq<char>, v: Seq<char>, b: Seq<char>)
    requires
        v.len() > 0,
        forall|i: int| 0 <= i < a.len() ==> !#[trigger] text::occurs_at(a + v + b, v, i),
    ensures
        secrets::redacted(a + v + b, seq![v]) == a + "[REDACTED]"@ + secrets::redacted(b, seq![v]),
{
    lemma_one_value(a + v + b, v);
    lemma_one_value(b, v);
    lemma_replaced(a, v, b, secrets::marker());
}

/// A header that carries no credential is shown as it is; one that does keeps its
/// name. None is left out.
pub proof fn law_plain_headers_are_shown_as_they_are(
    headers: Seq<(Seq<char>, Seq<char>)>,
    i: int,
)
    requires
        0 <= i < headers.len(),
    ensures
        endpoint::shown_headers(headers).len() == headers.len(),
        endpoint::shown_headers(headers)[i].0 == headers[i].0,
        !secrets::sensitive_header(headers[i].0) ==> endpoint::shown_headers(headers)[i]
            == headers[i],
        secrets::sensitive_header(headers[i].0) ==> endpoint::shown_headers(headers)[i].1
            == "[REDACTED]"@,
{
}

/// The credentials in headers are known as secrets, with the words before them and
/// without.
pub proof fn law_header_credentials_are_known(headers: Seq<(Seq<char>, Seq<char>)>, i: int)
    requires
        0 <= i < headers.len(),
        secrets::sensitive_header(headers[i].0),
        headers[i].1.len() > 0,
    ensures
        endpoint::header_secrets(headers).contains(headers[i].1),
        text::strip_prefix(headers[i].1, "Bearer "@) matches Some(token) ==> token.len() > 0
            ==> endpoint::header_secrets(headers).contains(token),
    decreases headers.len(),
{
    let before = endpoint::header_secrets(headers.drop_last());
    let all = endpoint::header_secrets(headers);
    if i == headers.len() - 1 {
        let value = headers[i].1;
        assert(all[before.len() as int] == value);
        if let Some(token) = text::strip_prefix(value, "Bearer "@) {
            if token.len() > 0 {
                assert(all[before.len() as int + 1] == token);
            }
        }
    } else {
        law_header_credentials_are_known(headers.drop_last(), i);
        let value = headers[i].1;
        let k = choose|k: int| 0 <= k < before.len() && before[k] == value;
        assert(all[k] == value);
        if let Some(token) = text::strip_prefix(value, "Bearer "@) {
            if token.len() > 0 {
                let j = choose|j: int| 0 <= j < before.len() && before[j] == token;
                assert(all[j] == token);
            }
        }
    }
}

proof fn lemma_with_pair(list: Seq<(Seq<char>, Seq<char>)>, pair: (Seq<char>, Seq<char>))
    ensures
        endpoint::with_pair(list, pair).to_multiset() == list.to_multiset().insert(pair),
    decreases list.len(),
{
    broadcast use vstd::seq_lib::group_to_multiset_ensures;

    let none = Seq::<(Seq<char>, Seq<char>)>::empty();
    if list.len() == 0 {
        assert(endpoint::with_pair(list, pair) =~= none.push(pair));
        assert(list =~= none);
    } else {
        let front = list.drop_last();
        assert(list =~= front.push(list.last()));
        if endpoint::pair_less(pair, list.last()) {
            lemma_with_pair(front, pair);
            let inner = endpoint::with_pair(front, pair);
            assert(inner.push(list.last()).to_multiset() =~= inner.to_multiset().insert(
                list.last(),
            ));
            assert(list.to_multiset() =~= front.to_multiset().insert(list.last()));
            assert(endpoint::with_pair(list, pair).to_multiset() =~= list.to_multiset().insert(
                pair,
            ));
        }
    }
}

/// Putting pairs in order loses none, adds none and changes none.
pub proof fn law_ordering_keeps_every_pair(pairs: Seq<(Seq<char>, Seq<char>)>)
    ensures
        endpoint::in_order(pairs).to_multiset() == pairs.to_multiset(),
    decreases pairs.len(),
{
    broadcast use vstd::seq_lib::group_to_multiset_ensures;

    if pairs.len() > 0 {
        let front = pairs.drop_last();
        law_ordering_keeps_every_pair(front);
        lemma_with_pair(endpoint::in_order(front), pairs.last());
        assert(pairs =~= front.push(pairs.last()));
        assert(pairs.to_multiset() =~= front.to_multiset().insert(pairs.last()));
    } else {
        assert(pairs =~= Seq::empty());
    }
}

/// Of the parameters of an address only those that may carry a credential are left
/// out where it is compared.
pub proof fn law_only_credentials_are_left_out(pairs: Seq<(Seq<char>, Seq<char>)>)
    ensures
        endpoint::plain_pairs(pairs) == pairs.filter(
            |p: (Seq<char>, Seq<char>)| !secrets::secret_query_key(p.0),
        ),
    decreases pairs.len(),
{
    reveal(Seq::filter);
    if pairs.len() > 0 {
        law_only_credentials_are_left_out(pairs.drop_last());
    } else {
        assert(pairs =~= Seq::empty());
    }
}

/// A parameter of an address that carries no credential is shown as it is; one that
/// does keeps its name. None is left out.
pub proof fn law_plain_parameters_are_shown_as_they_are(
    pairs: Seq<(Seq<char>, Seq<char>)>,
    i: int,
)
    requires
        0 <= i < pairs.len(),
    ensures
        endpoint::shown_pairs(pairs).len() == pairs.len(),
        endpoint::shown_pairs(pairs)[i].0 == pairs[i].0,
        !secrets::secret_query_key(pairs[i].0) ==> endpoint::shown_pairs(pairs)[i] == pairs[i],
        secrets::secret_query_key(pairs[i].0) ==> endpoint::shown_pairs(pairs)[i].1
            == "[REDACTED]"@,
{
}

proof fn lemma_query_secret(pairs: Seq<(Seq<char>, Seq<char>)>, i: int)
    requires
        0 <= i < pairs.len(),
        secrets::secret_query_key(pairs[i].0),
    ensures
        endpoint::query_secrets(pairs).contains(pairs[i].1),
    decreases pairs.len(),
{
    let before = endpoint::query_secrets(pairs.drop_last());
    let all = endpoint::query_secrets(pairs);
    if i == pairs.len() - 1 {
        assert(all.last() == pairs[i].1);
    } else {
        lemma_query_secret(pairs.drop_last(), i);
        let k = choose|k: int| 0 <= k < before.len() && before[k] == pairs[i].1;
        assert(all[k] == pairs[i].1);
    }
}

/// The credentials in an address are known as secrets: its user name, its password and
/// every parameter that may carry one.
pub proof fn law_address_credentials_are_known(address: Seq<char>, parts: UrlView)
    requires
        url::parsed_url(address) == Ok::<UrlView, Seq<char>>(parts),
    ensures
        parts.username.len() > 0 ==> endpoint::endpoint_secrets(address).contains(parts.username),
        parts.password matches Some(password) ==> password.len() > 0
            ==> endpoint::endpoint_secrets(address).contains(password),
        forall|i: int|
            0 <= i < parts.pairs.len() && secrets::secret_query_key(
                (#[trigger] parts.pairs[i]).0,
            ) ==> endpoint::endpoint_secrets(address).contains(parts.pairs[i].1),
{
    let all = endpoint::endpoint_secrets(address);
    let first = endpoint::if_any(parts.username);
    let second = match parts.password {
        Some(p) => endpoint::if_any(p),
        None => Seq::empty(),
    };
    let third = endpoint::query_secrets(parts.pairs);
    assert(all == first + second + third);
    if parts.username.len() > 0 {
        assert(all[0] == parts.username);
    }
    if let Some(password) = parts.password {
        if password.len() > 0 {
            assert(all[first.len() as int] == password);
        }
    }
    assert forall|i: int|
        0 <= i < parts.pairs.len() && secrets::secret_query_key(
            (#[trigger] parts.pairs[i]).0,
        ) implies all.contains(parts.pairs[i].1) by {
        lemma_query_secret(parts.pairs, i);
        let k = choose|k: int| 0 <= k < third.len() && third[k] == parts.pairs[i].1;
        assert(all[first.len() + second.len() + k] == parts.pairs[i].1);
    }
}

/// An address that cannot be read is shown up to its parameters, and without them.
pub proof fn law_unreadable_addresses_show_no_parameters(address: Seq<char>)
    requires
        url::parsed_url(address) is Err,
    ensures
        ({
            let shown = endpoint::shown_endpoint(address);
            &&& shown.is_prefix_of(address)
            &&& !shown.contains('?')
            &&& shown.len() < address.len() ==> address[shown.len() as int] == '?'
        }),
{
    text_laws::law_cut_texts_join_back(address, '?');
    if let Some((head, rest)) = text::split_once(address, '?') {
        assert((head + seq!['?'] + rest)[head.len() as int] == '?');
        assert(head =~= (head + seq!['?'] + rest).take(head.len() as int));
    }
}

} // verus!
