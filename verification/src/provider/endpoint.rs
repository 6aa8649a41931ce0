//! Where a request goes and with which headers: what of it may be shown, what of
//! it is secret, and what tells two of them apart.
use vstd::prelude::*;
use vstd::string::*;

use crate::json;
use crate::provider::canonical;
use crate::provider::message;
use crate::provider::secrets;
use crate::text;
use crate::url;
use crate::url::{UrlParts, UrlView};

verus! {

/// A request as it is sent.
pub struct HttpRequest {
    pub url: String,
    pub headers: Vec<(String, String)>,
    pub body: String,
}

#[verifier::ext_equal]
pub struct RequestView {
    pub url: Seq<char>,
    pub headers: Seq<(Seq<char>, Seq<char>)>,
    pub body: Seq<char>,
}

impl View for HttpRequest {
    type V = RequestView;

    open spec fn view(&self) -> RequestView {
        RequestView { url: self.url@, headers: url::pair_views(self.headers@), body: self.body@ }
    }
}

/// A header as it may be shown.
pub open spec fn shown_header(header: (Seq<char>, Seq<char>)) -> (Seq<char>, Seq<char>) {
    if secrets::sensitive_header(header.0) {
        (header.0, secrets::marker())
    } else {
        header
    }
}

pub open spec fn shown_headers(headers: Seq<(Seq<char>, Seq<char>)>) -> Seq<
    (Seq<char>, Seq<char>),
> {
    headers.map_values(|h: (Seq<char>, Seq<char>)| shown_header(h))
}

/// The headers with their credentials taken out.
pub fn redacted_headers(headers: &Vec<(String, String)>) -> (out: Vec<(String, String)>)
    ensures
        url::pair_views(out@) == shown_headers(url::pair_views(headers@)),
{
    let ghost all = url::pair_views(headers@);
    let mut out: Vec<(String, String)> = Vec::new();
    let mut i: usize = 0;
    assert(url::pair_views(out@) =~= shown_headers(all.take(0)));
    while i < headers.len()
        invariant
            i <= headers.len(),
            all == url::pair_views(headers@),
            url::pair_views(out@) == shown_headers(all.take(i as int)),
        decreases headers.len() - i,
    {
        let header = &headers[i];
        let value = if secrets::is_sensitive_header_name(header.0.as_str()) {
            "[REDACTED]".to_owned()
        } else {
            header.1.clone()
        };
        let ghost done = out@;
        let ghost shown = (header.0@, value@);
        out.push((header.0.clone(), value));
        assert(url::pair_views(out@) =~= url::pair_views(done).push(shown));
        assert(all.take(i + 1) =~= all.take(i as int).push(all[i as int]));
        assert(shown_headers(all.take(i + 1)) =~= shown_headers(all.take(i as int)).push(shown));
        i = i + 1;
    }
    assert(all.take(all.len() as int) =~= all);
    out
}

impl HttpRequest {
    /// The headers with their credentials taken out.
    pub fn redacted_headers(&self) -> (out: Vec<(String, String)>)
        ensures
            url::pair_views(out@) == shown_headers(self@.headers),
    {
        redacted_headers(&self.headers)
    }
}

/// No credential is shown among the headers.
pub proof fn law_shown_headers_hold_no_credential(headers: Seq<(Seq<char>, Seq<char>)>, i: int)
    requires
        0 <= i < headers.len(),
        secrets::sensitive_header(headers[i].0),
    ensures
        shown_headers(headers)[i] == (headers[i].0, secrets::marker()),
{
}

/// The values of the query keys that hold secrets.
pub open spec fn query_secrets(pairs: Seq<(Seq<char>, Seq<char>)>) -> Seq<Seq<char>>
    decreases pairs.len(),
{
    if pairs.len() == 0 {
        Seq::empty()
    } else {
        let front = query_secrets(pairs.drop_last());
        if secrets::secret_query_key(pairs.last().0) {
            front.push(pairs.last().1)
        } else {
            front
        }
    }
}

/// A text in a list, where there is one that is not empty.
pub open spec fn if_any(s: Seq<char>) -> Seq<Seq<char>> {
    if s.len() > 0 {
        seq![s]
    } else {
        Seq::empty()
    }
}

/// What is secret in a URL: the user name, the password and the values of the
/// query keys that hold secrets.
pub open spec fn url_secrets(v: UrlView) -> Seq<Seq<char>> {
    if_any(v.username) + (match v.password {
        Some(p) => if_any(p),
        None => Seq::empty(),
    }) + query_secrets(v.pairs)
}

/// What is secret in an endpoint; nothing where it is no URL.
pub open spec fn endpoint_secrets(endpoint: Seq<char>) -> Seq<Seq<char>> {
    match url::parsed_url(endpoint) {
        Ok(v) => url_secrets(v),
        Err(_) => Seq::empty(),
    }
}

/// What is secret in a URL that was taken apart.
pub fn url_sensitive_values(parts: &UrlParts) -> (out: Vec<String>)
    ensures
        text::texts(out@) == url_secrets(parts@),
{
    let mut out: Vec<String> = Vec::new();
    if !parts.username.as_str().is_empty() {
        out.push(parts.username.clone());
    }
    assert(text::texts(out@) =~= if_any(parts@.username));
    let ghost first = text::texts(out@);
    if let Some(password) = &parts.password {
        if !password.as_str().is_empty() {
            out.push(password.clone());
        }
        assert(text::texts(out@) =~= first + if_any(password@));
    }
    let ghost start = text::texts(out@);
    let ghost all = parts@.pairs;
    let mut i: usize = 0;
    assert(start =~= start + query_secrets(all.take(0)));
    while i < parts.pairs.len()
        invariant
            i <= parts.pairs.len(),
            all == url::pair_views(parts.pairs@),
            text::texts(out@) == start + query_secrets(all.take(i as int)),
        decreases parts.pairs.len() - i,
    {
        let pair = &parts.pairs[i];
        assert(all.take(i + 1).drop_last() =~= all.take(i as int));
        assert(all.take(i + 1).last() == (pair.0@, pair.1@));
        if secrets::is_secret_query_key(pair.0.as_str()) {
            let ghost done = out@;
            out.push(pair.1.clone());
            assert(text::texts(out@) =~= text::texts(done).push(pair.1@));
            assert(text::texts(out@) =~= start + query_secrets(all.take(i + 1)));
        }
        i = i + 1;
    }
    assert(all.take(all.len() as int) =~= all);
    out
}

/// What is secret in an endpoint; nothing where it is no URL.
pub fn endpoint_sensitive_values(endpoint: &str) -> (out: Vec<String>)
    ensures
        text::texts(out@) == endpoint_secrets(endpoint@),
{
    match url::parse(endpoint) {
        Ok(parts) => url_sensitive_values(&parts),
        Err(_) => {
            let out: Vec<String> = Vec::new();
            assert(text::texts(out@) =~= Seq::empty());
            out
        },
    }
}

/// What stands behind the word `Bearer` in a header.
pub open spec fn bare_token(value: Seq<char>) -> Seq<char> {
    match text::strip_prefix(value, "Bearer "@) {
        Some(token) => token,
        None => Seq::empty(),
    }
}

/// The credentials among the headers, with and without the word `Bearer`.
pub open spec fn header_secrets(headers: Seq<(Seq<char>, Seq<char>)>) -> Seq<Seq<char>>
    decreases headers.len(),
{
    if headers.len() == 0 {
        Seq::empty()
    } else {
        let front = header_secrets(headers.drop_last());
        let (name, value) = headers.last();
        if secrets::sensitive_header(name) {
            front + if_any(value) + if_any(bare_token(value))
        } else {
            front
        }
    }
}

/// Adds what is secret in a request.
pub fn collect_request_sensitive_values(request: &HttpRequest, values: &mut Vec<String>)
    ensures
        text::texts(final(values)@) == text::texts(old(values)@) + header_secrets(request@.headers)
            + endpoint_secrets(request@.url),
{
    let ghost start = text::texts(values@);
    let ghost all = request@.headers;
    let mut i: usize = 0;
    assert(start =~= start + header_secrets(all.take(0)));
    while i < request.headers.len()
        invariant
            i <= request.headers.len(),
            all == url::pair_views(request.headers@),
            text::texts(values@) == start + header_secrets(all.take(i as int)),
        decreases request.headers.len() - i,
    {
        let header = &request.headers[i];
        assert(all.take(i + 1).drop_last() =~= all.take(i as int));
        assert(all.take(i + 1).last() == (header.0@, header.1@));
        if secrets::is_sensitive_header_name(header.0.as_str()) {
            let ghost before = text::texts(values@);
            if !header.1.as_str().is_empty() {
                values.push(header.1.clone());
            }
            assert(text::texts(values@) =~= before + if_any(header.1@));
            if let Some(token) = text::without_prefix(header.1.as_str(), "Bearer ") {
                let ghost between = text::texts(values@);
                let ghost bare = token@;
                if !token.as_str().is_empty() {
                    values.push(token);
                }
                assert(text::texts(values@) =~= between + if_any(bare));
            }
            assert(text::texts(values@) =~= before + if_any(header.1@) + if_any(
                bare_token(header.1@),
            ));
            assert(text::texts(values@) =~= start + header_secrets(all.take(i + 1)));
        }
        i = i + 1;
    }
    assert(all.take(all.len() as int) =~= all);
    let ghost between = text::texts(values@);
    let mut rest = endpoint_sensitive_values(request.url.as_str());
    let ghost tail = text::texts(rest@);
    values.append(&mut rest);
    assert(text::texts(values@) =~= between + tail);
}

/// A query pair as it may be shown.
pub open spec fn shown_pair(pair: (Seq<char>, Seq<char>)) -> (Seq<char>, Seq<char>) {
    if secrets::secret_query_key(pair.0) {
        (pair.0, secrets::marker())
    } else {
        pair
    }
}

pub open spec fn shown_pairs(pairs: Seq<(Seq<char>, Seq<char>)>) -> Seq<(Seq<char>, Seq<char>)> {
    pairs.map_values(|p: (Seq<char>, Seq<char>)| shown_pair(p))
}

/// The part of a text before the first `c`.
pub open spec fn cut_at(s: Seq<char>, c: char) -> Seq<char> {
    match text::split_once(s, c) {
        Some((head, _)) => head,
        None => s,
    }
}

fn cut(s: &str, c: char) -> (r: String)
    ensures
        r@ == cut_at(s@, c),
{
    match text::cut_once(s, c) {
        Some((head, _)) => head,
        None => s.to_owned(),
    }
}

/// The query that pairs make; none where there are no pairs.
pub open spec fn query_if_any(pairs: Seq<(Seq<char>, Seq<char>)>) -> Option<Seq<char>> {
    if pairs.len() == 0 {
        None
    } else {
        Some(url::query_of(pairs))
    }
}

/// An endpoint that was read as `v` as it may be shown: marks in place of the
/// user name, the password and the secrets of the query. One whose parts would not
/// be counted in 32 bits any more loses its query.
pub open spec fn shown_url(endpoint: Seq<char>, v: UrlView) -> Seq<char> {
    let pairs = shown_pairs(v.pairs);
    let username = if v.username.len() == 0 {
        Seq::empty()
    } else {
        secrets::marker()
    };
    let password = if v.password is None {
        None
    } else {
        Some(secrets::marker())
    };
    match url::rewritten_where_fits(
        endpoint,
        username,
        password,
        query_if_any(pairs),
        v.fragment,
    ) {
        Some(shown) => shown,
        None => cut_at(endpoint, '?'),
    }
}

pub open spec fn shown_endpoint(endpoint: Seq<char>) -> Seq<char> {
    match url::parsed_url(endpoint) {
        Ok(v) => shown_url(endpoint, v),
        Err(_) => cut_at(endpoint, '?'),
    }
}

fn opt_str(s: &Option<String>) -> (r: Option<&str>)
    ensures
        url::opt_view(r) == message::opt_text(*s),
{
    match s {
        Some(t) => Some(t.as_str()),
        None => None,
    }
}

/// An endpoint that was taken apart, as it may be shown.
pub fn redact_parsed(endpoint: &str, parts: &UrlParts) -> (r: String)
    ensures
        r@ == shown_url(endpoint@, parts@),
{
    let ghost all = parts@.pairs;
    let mut pairs: Vec<(String, String)> = Vec::new();
    let mut i: usize = 0;
    assert(url::pair_views(pairs@) =~= shown_pairs(all.take(0)));
    while i < parts.pairs.len()
        invariant
            i <= parts.pairs.len(),
            all == url::pair_views(parts.pairs@),
            url::pair_views(pairs@) == shown_pairs(all.take(i as int)),
        decreases parts.pairs.len() - i,
    {
        let pair = &parts.pairs[i];
        let value = if secrets::is_secret_query_key(pair.0.as_str()) {
            "[REDACTED]".to_owned()
        } else {
            pair.1.clone()
        };
        let ghost done = pairs@;
        let ghost shown = (pair.0@, value@);
        pairs.push((pair.0.clone(), value));
        assert(url::pair_views(pairs@) =~= url::pair_views(done).push(shown));
        assert(all.take(i + 1) =~= all.take(i as int).push(all[i as int]));
        assert(shown_pairs(all.take(i + 1)) =~= shown_pairs(all.take(i as int)).push(shown));
        i = i + 1;
    }
    assert(all.take(all.len() as int) =~= all);
    proof {
        reveal_strlit("");
        assert(""@ =~= Seq::empty());
        url::lemma_query_is_plain(url::pair_views(pairs@));
    }
    let username = if parts.username.as_str().is_empty() {
        ""
    } else {
        "[REDACTED]"
    };
    let password = if parts.password.is_some() {
        Some("[REDACTED]")
    } else {
        None
    };
    let fragment = opt_str(&parts.fragment);
    let query = url::to_query(&pairs);
    let shown_query = if pairs.len() == 0 {
        None
    } else {
        Some(query.as_str())
    };
    match url::rewrite_where_fits(endpoint, username, password, shown_query, fragment) {
        Some(shown) => shown,
        None => cut(endpoint, '?'),
    }
}

/// An endpoint as it may be shown; the query goes where it is no URL.
pub fn redacted_endpoint(endpoint: &str) -> (r: String)
    ensures
        r@ == shown_endpoint(endpoint@),
{
    match url::parse(endpoint) {
        Ok(parts) => redact_parsed(endpoint, &parts),
        Err(_) => cut(endpoint, '?'),
    }
}

/// Pairs in the order of their first and then their second texts.
pub open spec fn pair_less(a: (Seq<char>, Seq<char>), b: (Seq<char>, Seq<char>)) -> bool {
    json::text_less(a.0, b.0) || (a.0 == b.0 && json::text_less(a.1, b.1))
}

/// An ordered list with one more pair in its place.
pub open spec fn with_pair(
    list: Seq<(Seq<char>, Seq<char>)>,
    pair: (Seq<char>, Seq<char>),
) -> Seq<(Seq<char>, Seq<char>)>
    decreases list.len(),
{
    if list.len() == 0 {
        seq![pair]
    } else if pair_less(pair, list.last()) {
        with_pair(list.drop_last(), pair).push(list.last())
    } else {
        list.push(pair)
    }
}

/// Pairs in order.
pub open spec fn in_order(pairs: Seq<(Seq<char>, Seq<char>)>) -> Seq<(Seq<char>, Seq<char>)>
    decreases pairs.len(),
{
    if pairs.len() == 0 {
        Seq::empty()
    } else {
        with_pair(in_order(pairs.drop_last()), pairs.last())
    }
}

proof fn lemma_pair_order(
    a: (Seq<char>, Seq<char>),
    b: (Seq<char>, Seq<char>),
    c: (Seq<char>, Seq<char>),
)
    ensures
        !pair_less(a, a),
        pair_less(a, b) || pair_less(b, a) || a == b,
        pair_less(a, b) && pair_less(b, c) ==> pair_less(a, c),
        !(pair_less(a, b) && pair_less(b, a)),
{
    json::lemma_text_less_irreflexive(a.0);
    json::lemma_text_less_irreflexive(a.1);
    json::lemma_text_less_total(a.0, b.0);
    json::lemma_text_less_total(a.1, b.1);
    if json::text_less(a.0, b.0) && json::text_less(b.0, c.0) {
        json::lemma_text_less_transitive(a.0, b.0, c.0);
    }
    if json::text_less(a.1, b.1) && json::text_less(b.1, c.1) {
        json::lemma_text_less_transitive(a.1, b.1, c.1);
    }
    if json::text_less(a.0, b.0) && json::text_less(b.0, a.0) {
        json::lemma_text_less_transitive(a.0, b.0, a.0);
    }
    if json::text_less(a.1, b.1) && json::text_less(b.1, a.1) {
        json::lemma_text_less_transitive(a.1, b.1, a.1);
    }
}

proof fn lemma_pairs_commute(
    list: Seq<(Seq<char>, Seq<char>)>,
    a: (Seq<char>, Seq<char>),
    b: (Seq<char>, Seq<char>),
)
    ensures
        with_pair(with_pair(list, a), b) == with_pair(with_pair(list, b), a),
    decreases list.len(),
{
    reveal_with_fuel(with_pair, 3);
    lemma_pair_order(a, b, a);
    lemma_pair_order(b, a, b);
    if list.len() == 0 {
        assert(seq![a].drop_last() =~= Seq::empty());
        assert(seq![b].drop_last() =~= Seq::empty());
        assert(seq![a].push(b) =~= seq![b].push(a) || a != b);
        assert(with_pair(Seq::empty(), a) =~= seq![a]);
        assert(with_pair(Seq::empty(), b) =~= seq![b]);
    } else {
        let last = list.last();
        let front = list.drop_last();
        lemma_pairs_commute(front, a, b);
        lemma_pair_order(a, last, b);
        lemma_pair_order(b, last, a);
        lemma_pair_order(last, a, b);
        lemma_pair_order(last, b, a);
        lemma_pair_order(a, b, last);
        lemma_pair_order(b, a, last);
        assert(list.push(a).drop_last() =~= list);
        assert(list.push(b).drop_last() =~= list);
        assert(with_pair(front, a).push(last).drop_last() =~= with_pair(front, a));
        assert(with_pair(front, b).push(last).drop_last() =~= with_pair(front, b));
    }
}

pub(crate) fn file_pair(list: &mut Vec<(String, String)>, name: String, value: String)
    ensures
        url::pair_views(final(list)@) == with_pair(url::pair_views(old(list)@), (name@, value@)),
{
    let ghost all = url::pair_views(list@);
    let ghost new = (name@, value@);
    let n: usize = list.len();
    let mut i: usize = n;
    assert(all.take(n as int) =~= all);
    assert(with_pair(all.take(n as int), new) + all.skip(n as int) =~= with_pair(all, new));
    while i > 0 && (json::less(name.as_str(), list[i - 1].0.as_str()) || (text::same(
        name.as_str(),
        list[i - 1].0.as_str(),
    ) && json::less(value.as_str(), list[i - 1].1.as_str())))
        invariant
            i <= n == list@.len(),
            new == (name@, value@),
            all == url::pair_views(list@),
            *list == *old(list),
            with_pair(all, new) == with_pair(all.take(i as int), new) + all.skip(i as int),
        decreases i,
    {
        let ghost part = all.take(i as int);
        assert(part.last() == (list@[i - 1].0@, list@[i - 1].1@));
        assert(part.drop_last() =~= all.take(i - 1));
        assert(with_pair(all.take(i - 1), new).push(all[i - 1]) + all.skip(i as int) =~= with_pair(
            all.take(i - 1),
            new,
        ) + all.skip(i - 1));
        i = i - 1;
    }
    let ghost start = list@;
    assert(i > 0 ==> all.take(i as int).last() == (list@[i - 1].0@, list@[i - 1].1@));
    list.insert(i, (name, value));
    assert(url::pair_views(list@) =~= url::pair_views(start).insert(i as int, new));
    assert(all.insert(i as int, new) =~= all.take(i as int).push(new) + all.skip(i as int));
}

/// The pairs of a query that hold no secrets.
pub open spec fn plain_pairs(pairs: Seq<(Seq<char>, Seq<char>)>) -> Seq<(Seq<char>, Seq<char>)>
    decreases pairs.len(),
{
    if pairs.len() == 0 {
        Seq::empty()
    } else {
        let front = plain_pairs(pairs.drop_last());
        if secrets::secret_query_key(pairs.last().0) {
            front
        } else {
            front.push(pairs.last())
        }
    }
}

/// What stands for an endpoint that was read as `v`: without user, password,
/// fragment and secrets, the rest of its query in order.
pub open spec fn identity_url(endpoint: Seq<char>, v: UrlView) -> Seq<char> {
    let pairs = in_order(plain_pairs(v.pairs));
    match url::rewritten_where_fits(endpoint, Seq::empty(), None, query_if_any(pairs), None) {
        Some(identity) => identity,
        None => bare_endpoint(endpoint),
    }
}

/// An endpoint without its fragment and its query.
pub open spec fn bare_endpoint(endpoint: Seq<char>) -> Seq<char> {
    cut_at(cut_at(endpoint, '#'), '?')
}

pub open spec fn endpoint_text(endpoint: Seq<char>) -> Seq<char> {
    match url::parsed_url(endpoint) {
        Ok(v) => identity_url(endpoint, v),
        Err(_) => bare_endpoint(endpoint),
    }
}

fn bare(endpoint: &str) -> (r: String)
    ensures
        r@ == bare_endpoint(endpoint@),
{
    let head = cut(endpoint, '#');
    cut(head.as_str(), '?')
}

/// What stands for an endpoint that was taken apart.
pub fn parsed_identity(endpoint: &str, parts: &UrlParts) -> (r: String)
    ensures
        r@ == identity_url(endpoint@, parts@),
{
    let ghost all = parts@.pairs;
    let mut pairs: Vec<(String, String)> = Vec::new();
    let mut i: usize = 0;
    assert(url::pair_views(pairs@) =~= in_order(plain_pairs(all.take(0))));
    while i < parts.pairs.len()
        invariant
            i <= parts.pairs.len(),
            all == url::pair_views(parts.pairs@),
            url::pair_views(pairs@) == in_order(plain_pairs(all.take(i as int))),
        decreases parts.pairs.len() - i,
    {
        let pair = &parts.pairs[i];
        assert(all.take(i + 1).drop_last() =~= all.take(i as int));
        assert(all.take(i + 1).last() == (pair.0@, pair.1@));
        if !secrets::is_secret_query_key(pair.0.as_str()) {
            let ghost front = plain_pairs(all.take(i as int));
            assert(front.push((pair.0@, pair.1@)).drop_last() =~= front);
            file_pair(&mut pairs, pair.0.clone(), pair.1.clone());
        }
        i = i + 1;
    }
    assert(all.take(all.len() as int) =~= all);
    proof {
        reveal_strlit("");
        assert(""@ =~= Seq::empty());
        url::lemma_query_is_plain(url::pair_views(pairs@));
    }
    let query = url::to_query(&pairs);
    let plain_query = if pairs.len() == 0 {
        None
    } else {
        Some(query.as_str())
    };
    match url::rewrite_where_fits(endpoint, "", None, plain_query, None) {
        Some(identity) => identity,
        None => bare(endpoint),
    }
}

/// A number for an endpoint, whatever its secrets are.
pub fn endpoint_identity(endpoint: &str) -> (r: u64)
    ensures
        r == canonical::text_hash(endpoint_text(endpoint@)),
{
    let identity = match url::parse(endpoint) {
        Ok(parts) => parsed_identity(endpoint, &parts),
        Err(_) => bare(endpoint),
    };
    canonical::hash_of(identity.as_str())
}

/// What a header says, its credential left out.
pub open spec fn semantic_header(header: (Seq<char>, Seq<char>)) -> (Seq<char>, Seq<char>) {
    let name = text::lower(header.0);
    (
        name,
        if secrets::sensitive_header(name) {
            Seq::empty()
        } else {
            header.1
        },
    )
}

pub open spec fn semantic_headers(headers: Seq<(Seq<char>, Seq<char>)>) -> Seq<
    (Seq<char>, Seq<char>),
> {
    headers.map_values(|h: (Seq<char>, Seq<char>)| semantic_header(h))
}

/// Pairs written one behind the other, each text closed by a zero.
pub open spec fn closed_texts(pairs: Seq<(Seq<char>, Seq<char>)>) -> Seq<char>
    decreases pairs.len(),
{
    if pairs.len() == 0 {
        Seq::empty()
    } else {
        (closed_texts(pairs.drop_last()) + pairs.last().0).push('\0') + pairs.last().1.push('\0')
    }
}

/// What stands for headers: their names in lower case and the values that are no
/// credentials, in order.
pub open spec fn headers_text(headers: Seq<(Seq<char>, Seq<char>)>) -> Seq<char> {
    closed_texts(in_order(semantic_headers(headers)))
}

/// A number for headers, whatever their credentials and their order are.
pub fn semantic_headers_identity(headers: &Vec<(String, String)>) -> (r: u64)
    ensures
        r == canonical::text_hash(headers_text(url::pair_views(headers@))),
{
    let ghost all = url::pair_views(headers@);
    let mut ordered: Vec<(String, String)> = Vec::new();
    let mut i: usize = 0;
    assert(url::pair_views(ordered@) =~= in_order(semantic_headers(all.take(0))));
    while i < headers.len()
        invariant
            i <= headers.len(),
            all == url::pair_views(headers@),
            url::pair_views(ordered@) == in_order(semantic_headers(all.take(i as int))),
        decreases headers.len() - i,
    {
        let name = text::lowered(headers[i].0.as_str());
        let value = if secrets::is_sensitive_header_name(name.as_str()) {
            String::new()
        } else {
            headers[i].1.clone()
        };
        let ghost before = semantic_headers(all.take(i as int));
        let ghost new = (name@, value@);
        assert(value@ =~= semantic_header(all[i as int]).1);
        assert(semantic_headers(all.take(i + 1)) =~= before.push(new));
        assert(before.push(new).drop_last() =~= before);
        file_pair(&mut ordered, name, value);
        i = i + 1;
    }
    assert(all.take(all.len() as int) =~= all);
    let ghost list = url::pair_views(ordered@);
    let mut out = String::new();
    let mut j: usize = 0;
    assert(out@ =~= closed_texts(list.take(0)));
    while j < ordered.len()
        invariant
            j <= ordered.len(),
            list == url::pair_views(ordered@),
            out@ == closed_texts(list.take(j as int)),
        decreases ordered.len() - j,
    {
        out.append(ordered[j].0.as_str());
        out.push('\0');
        out.append(ordered[j].1.as_str());
        out.push('\0');
        assert(list.take(j + 1).drop_last() =~= list.take(j as int));
        assert(list.take(j + 1).last() == (ordered@[j as int].0@, ordered@[j as int].1@));
        assert(out@ =~= closed_texts(list.take(j + 1)));
        j = j + 1;
    }
    assert(list.take(list.len() as int) =~= list);
    canonical::hash_of(out.as_str())
}

proof fn lemma_lower_twice(s: Seq<char>)
    ensures
        text::lower(text::lower(s)) == text::lower(s),
{
    assert(text::lower(text::lower(s)) =~= text::lower(s));
}

/// Credentials tell no headers apart: taking them out changes nothing.
pub proof fn law_headers_are_told_apart_without_credentials(headers: Seq<(Seq<char>, Seq<char>)>)
    ensures
        headers_text(shown_headers(headers)) == headers_text(headers),
{
    assert forall|i: int| 0 <= i < headers.len() implies semantic_headers(shown_headers(headers))[i]
        == semantic_headers(headers)[i] by {
        lemma_lower_twice(headers[i].0);
    }
    assert(semantic_headers(shown_headers(headers)) =~= semantic_headers(headers));
}

/// Nor does their order: two neighbours may change places.
pub proof fn law_headers_are_told_apart_without_order(
    head: Seq<(Seq<char>, Seq<char>)>,
    a: (Seq<char>, Seq<char>),
    b: (Seq<char>, Seq<char>),
    tail: Seq<(Seq<char>, Seq<char>)>,
)
    ensures
        headers_text(head.push(a).push(b) + tail) == headers_text(head.push(b).push(a) + tail),
    decreases tail.len(),
{
    let left = semantic_headers(head.push(a).push(b) + tail);
    let right = semantic_headers(head.push(b).push(a) + tail);
    let start = semantic_headers(head);
    let x = semantic_header(a);
    let y = semantic_header(b);
    let end = semantic_headers(tail);
    assert(left =~= start.push(x).push(y) + end);
    assert(right =~= start.push(y).push(x) + end);
    lemma_neighbours_change(start, x, y, end);
}

proof fn lemma_neighbours_change(
    head: Seq<(Seq<char>, Seq<char>)>,
    a: (Seq<char>, Seq<char>),
    b: (Seq<char>, Seq<char>),
    tail: Seq<(Seq<char>, Seq<char>)>,
)
    ensures
        in_order(head.push(a).push(b) + tail) == in_order(head.push(b).push(a) + tail),
    decreases tail.len(),
{
    let left = head.push(a).push(b) + tail;
    let right = head.push(b).push(a) + tail;
    if tail.len() == 0 {
        assert(left =~= head.push(a).push(b));
        assert(right =~= head.push(b).push(a));
        assert(left.drop_last() =~= head.push(a));
        assert(right.drop_last() =~= head.push(b));
        assert(head.push(a).drop_last() =~= head);
        assert(head.push(b).drop_last() =~= head);
        reveal_with_fuel(in_order, 3);
        lemma_pairs_commute(in_order(head), a, b);
    } else {
        lemma_neighbours_change(head, a, b, tail.drop_last());
        assert(left.drop_last() =~= head.push(a).push(b) + tail.drop_last());
        assert(right.drop_last() =~= head.push(b).push(a) + tail.drop_last());
        assert(left.last() == right.last());
    }
}

} // verus!
