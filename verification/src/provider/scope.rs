//! Numbers for credentials: requests with the same credentials share a number,
//! which says nothing of them.
use vstd::prelude::*;
use vstd::string::*;

use crate::provider::canonical;
use crate::provider::endpoint;
use crate::provider::secrets;
use crate::text;
use crate::url;
use crate::url::{UrlParts, UrlView};

verus! {

/// Most credentials that are remembered.
pub const MAX_CREDENTIAL_SCOPES: usize = 128;

/// Most bytes of a credential that is remembered.
pub const MAX_CREDENTIAL_SCOPE_BYTES: usize = 8192;

/// Most bytes of all credentials that are remembered.
pub const MAX_CREDENTIAL_REGISTRY_BYTES: usize = 262144;

/// What sets the numbers of credentials apart from the numbers of adapters.
pub const EXTERNAL_CREDENTIAL_SCOPE_TAG: u128 = 0x8000_0000_0000_0000_0000_0000_0000_0000;

pub open spec fn tagged(id: u128) -> u128 {
    id | EXTERNAL_CREDENTIAL_SCOPE_TAG
}

/// The number of a credential as it is used.
pub fn external_credential_scope_id(id: u128) -> (r: u128)
    ensures
        r == tagged(id),
{
    id | EXTERNAL_CREDENTIAL_SCOPE_TAG
}

/// No number of an adapter is the number of a credential.
pub proof fn law_scope_domains_are_disjoint(built_in: u64, id: u128)
    ensures
        built_in as u128 != tagged(id),
        tagged(id) & EXTERNAL_CREDENTIAL_SCOPE_TAG == EXTERNAL_CREDENTIAL_SCOPE_TAG,
{
    let wide = built_in as u128;
    let tag: u128 = 0x8000_0000_0000_0000_0000_0000_0000_0000;
    assert(wide <= 0xffff_ffff_ffff_ffffu128 ==> wide != (id | tag) && (id | tag) & tag == tag)
        by (bit_vector)
        requires
            tag == 0x8000_0000_0000_0000_0000_0000_0000_0000u128,
    ;
}

proof fn lemma_tag_keeps_apart(a: u128, b: u128)
    requires
        a != b,
        a < EXTERNAL_CREDENTIAL_SCOPE_TAG,
        b < EXTERNAL_CREDENTIAL_SCOPE_TAG,
    ensures
        tagged(a) != tagged(b),
{
    let tag: u128 = 0x8000_0000_0000_0000_0000_0000_0000_0000;
    assert((a | tag) != (b | tag)) by (bit_vector)
        requires
            a != b,
            a < tag,
            b < tag,
            tag == 0x8000_0000_0000_0000_0000_0000_0000_0000u128,
    ;
}

/// The credentials among headers, with where they stand.
pub open spec fn header_credentials(headers: Seq<(Seq<char>, Seq<char>)>) -> Seq<
    (Seq<char>, Seq<char>),
>
    decreases headers.len(),
{
    if headers.len() == 0 {
        Seq::empty()
    } else {
        let front = header_credentials(headers.drop_last());
        let (name, value) = headers.last();
        if secrets::sensitive_header(name) {
            front.push(("header:"@ + text::lower(name), value))
        } else {
            front
        }
    }
}

/// The secrets of a query, with where they stand.
pub open spec fn query_credentials(pairs: Seq<(Seq<char>, Seq<char>)>) -> Seq<
    (Seq<char>, Seq<char>),
>
    decreases pairs.len(),
{
    if pairs.len() == 0 {
        Seq::empty()
    } else {
        let front = query_credentials(pairs.drop_last());
        let (key, value) = pairs.last();
        if secrets::secret_query_key(key) {
            front.push(("query:"@ + text::lower(key), value))
        } else {
            front
        }
    }
}

/// A pair in a list, where its value is not empty.
pub open spec fn pair_if_any(name: Seq<char>, value: Seq<char>) -> Seq<(Seq<char>, Seq<char>)> {
    if value.len() > 0 {
        seq![(name, value)]
    } else {
        Seq::empty()
    }
}

/// The credentials of a URL, with where they stand.
pub open spec fn url_credentials(v: UrlView) -> Seq<(Seq<char>, Seq<char>)> {
    pair_if_any("url:username"@, v.username) + (match v.password {
        Some(p) => pair_if_any("url:password"@, p),
        None => Seq::empty(),
    }) + query_credentials(v.pairs)
}

/// Pairs as a text that can be read back.
pub open spec fn framed_pairs(pairs: Seq<(Seq<char>, Seq<char>)>) -> Seq<char>
    decreases pairs.len(),
{
    if pairs.len() == 0 {
        Seq::empty()
    } else {
        framed_pairs(pairs.drop_last()) + canonical::frame(pairs.last().0) + canonical::frame(
            pairs.last().1,
        )
    }
}

/// All credentials of a request whose URL was read as `v`, as one text.
pub open spec fn credential_with(
    v: Option<UrlView>,
    headers: Seq<(Seq<char>, Seq<char>)>,
) -> Seq<char> {
    framed_pairs(
        endpoint::in_order(
            header_credentials(headers) + (match v {
                Some(v) => url_credentials(v),
                None => Seq::empty(),
            }),
        ),
    )
}

/// All credentials of a request as one text.
pub open spec fn credential_text(endpoint: Seq<char>, headers: Seq<(Seq<char>, Seq<char>)>) -> Seq<
    char,
> {
    credential_with(
        match url::parsed_url(endpoint) {
            Ok(v) => Some(v),
            Err(_) => None,
        },
        headers,
    )
}

fn with_word(word: &str, name: &str) -> (r: String)
    ensures
        r@ == word@ + text::lower(name@),
{
    let mut r = word.to_owned();
    let lower = text::lowered(name);
    r.append(lower.as_str());
    r
}

fn file_headers(list: &mut Vec<(String, String)>, headers: &Vec<(String, String)>)
    requires
        old(list)@.len() == 0,
    ensures
        url::pair_views(final(list)@) == endpoint::in_order(
            header_credentials(url::pair_views(headers@)),
        ),
{
    let ghost all = url::pair_views(headers@);
    let mut i: usize = 0;
    assert(url::pair_views(list@) =~= endpoint::in_order(header_credentials(all.take(0))));
    while i < headers.len()
        invariant
            i <= headers.len(),
            all == url::pair_views(headers@),
            url::pair_views(list@) == endpoint::in_order(header_credentials(all.take(i as int))),
        decreases headers.len() - i,
    {
        let header = &headers[i];
        assert(all.take(i + 1).drop_last() =~= all.take(i as int));
        assert(all.take(i + 1).last() == (header.0@, header.1@));
        if secrets::is_sensitive_header_name(header.0.as_str()) {
            let ghost front = header_credentials(all.take(i as int));
            let name = with_word("header:", header.0.as_str());
            assert(front.push((name@, header.1@)).drop_last() =~= front);
            endpoint::file_pair(list, name, header.1.clone());
        }
        i = i + 1;
    }
    assert(all.take(all.len() as int) =~= all);
}

fn file_if_any(
    list: &mut Vec<(String, String)>,
    name: &str,
    value: &str,
    Ghost(before): Ghost<Seq<(Seq<char>, Seq<char>)>>,
)
    requires
        url::pair_views(old(list)@) == endpoint::in_order(before),
    ensures
        url::pair_views(final(list)@) == endpoint::in_order(before + pair_if_any(name@, value@)),
{
    if value.is_empty() {
        assert(before + pair_if_any(name@, value@) =~= before);
    } else {
        let ghost after = before + pair_if_any(name@, value@);
        assert(after.drop_last() =~= before);
        assert(after.last() == (name@, value@));
        endpoint::file_pair(list, name.to_owned(), value.to_owned());
    }
}

/// All credentials of a request whose URL was taken apart, as one text.
pub fn credential_of_parts(parts: Option<&UrlParts>, headers: &Vec<(String, String)>) -> (r: String)
    ensures
        r@ == credential_with(
            match parts {
                Some(p) => Some(p@),
                None => None,
            },
            url::pair_views(headers@),
        ),
{
    let mut list: Vec<(String, String)> = Vec::new();
    file_headers(&mut list, headers);
    let ghost first = header_credentials(url::pair_views(headers@));
    let ghost mut whole = first;
    if let Some(p) = parts {
        file_if_any(&mut list, "url:username", p.username.as_str(), Ghost(first));
        let ghost second = first + pair_if_any("url:username"@, p@.username);
        let ghost mut start = second;
        if let Some(password) = &p.password {
            file_if_any(&mut list, "url:password", password.as_str(), Ghost(second));
            proof {
                start = second + pair_if_any("url:password"@, password@);
            }
        }
        assert(p@.password is None ==> start == second);
        let ghost all = p@.pairs;
        let mut i: usize = 0;
        assert(start + query_credentials(all.take(0)) =~= start);
        while i < p.pairs.len()
            invariant
                i <= p.pairs.len(),
                all == url::pair_views(p.pairs@),
                url::pair_views(list@) == endpoint::in_order(
                    start + query_credentials(all.take(i as int)),
                ),
            decreases p.pairs.len() - i,
        {
            let pair = &p.pairs[i];
            assert(all.take(i + 1).drop_last() =~= all.take(i as int));
            assert(all.take(i + 1).last() == (pair.0@, pair.1@));
            if secrets::is_secret_query_key(pair.0.as_str()) {
                let ghost front = start + query_credentials(all.take(i as int));
                let name = with_word("query:", pair.0.as_str());
                let ghost next = start + query_credentials(all.take(i + 1));
                assert(next =~= front.push((name@, pair.1@)));
                assert(next.drop_last() =~= front);
                endpoint::file_pair(&mut list, name, pair.1.clone());
            }
            i = i + 1;
        }
        assert(all.take(all.len() as int) =~= all);
        proof {
            whole = first + url_credentials(p@);
            assert(whole =~= start + query_credentials(all)) by {
                if p@.password is None {
                    assert(whole =~= second + query_credentials(all));
                }
            }
        }
    } else {
        assert(first + Seq::<(Seq<char>, Seq<char>)>::empty() =~= first);
    }
    let ghost pairs = url::pair_views(list@);
    let mut out = String::new();
    let mut j: usize = 0;
    assert(out@ =~= framed_pairs(pairs.take(0)));
    while j < list.len()
        invariant
            j <= list.len(),
            pairs == url::pair_views(list@),
            out@ == framed_pairs(pairs.take(j as int)),
        decreases list.len() - j,
    {
        canonical::canonical_push(&mut out, list[j].0.as_str());
        canonical::canonical_push(&mut out, list[j].1.as_str());
        assert(pairs.take(j + 1).drop_last() =~= pairs.take(j as int));
        assert(pairs.take(j + 1).last() == (list@[j as int].0@, list@[j as int].1@));
        j = j + 1;
    }
    assert(pairs.take(pairs.len() as int) =~= pairs);
    out
}

/// All credentials of a request as one text.
pub fn credential_of(endpoint: &str, headers: &Vec<(String, String)>) -> (r: String)
    ensures
        r@ == credential_text(endpoint@, url::pair_views(headers@)),
{
    match url::parse(endpoint) {
        Ok(parts) => credential_of_parts(Some(&parts), headers),
        Err(_) => credential_of_parts(None, headers),
    }
}

/// The credentials that are remembered, the one used last behind the others.
pub struct CredentialScopeRegistry {
    next_id: u128,
    scopes: Vec<(String, u128)>,
    retained_bytes: usize,
}

#[verifier::ext_equal]
pub struct RegistryView {
    pub next_id: u128,
    pub scopes: Seq<(Seq<char>, u128)>,
}

pub open spec fn scope_views(scopes: Seq<(String, u128)>) -> Seq<(Seq<char>, u128)> {
    scopes.map_values(|s: (String, u128)| (s.0@, s.1))
}

impl View for CredentialScopeRegistry {
    type V = RegistryView;

    closed spec fn view(&self) -> RegistryView {
        RegistryView { next_id: self.next_id, scopes: scope_views(self.scopes@) }
    }
}

/// The bytes of all remembered credentials.
pub open spec fn total_bytes(scopes: Seq<(Seq<char>, u128)>) -> nat
    decreases scopes.len(),
{
    if scopes.len() == 0 {
        0
    } else {
        total_bytes(scopes.drop_last()) + text::byte_len(scopes.last().0)
    }
}

/// Where a credential stands.
pub open spec fn scope_index(
    scopes: Seq<(Seq<char>, u128)>,
    credential: Seq<char>,
    from: int,
) -> Option<int>
    decreases scopes.len() - from,
{
    if from < 0 || from >= scopes.len() {
        None
    } else if scopes[from].0 == credential {
        Some(from)
    } else {
        scope_index(scopes, credential, from + 1)
    }
}

/// What is left when room is made for a credential: the oldest go first.
pub open spec fn with_room(scopes: Seq<(Seq<char>, u128)>, bytes: nat) -> Seq<(Seq<char>, u128)>
    decreases scopes.len(),
{
    if scopes.len() > 0 && (scopes.len() >= MAX_CREDENTIAL_SCOPES || total_bytes(scopes) + bytes
        > MAX_CREDENTIAL_REGISTRY_BYTES) {
        with_room(scopes.skip(1), bytes)
    } else {
        scopes
    }
}

pub open spec fn next_after(id: u128) -> u128 {
    if id == u128::MAX {
        id
    } else {
        (id + 1) as u128
    }
}

impl RegistryView {
    pub open spec fn empty() -> RegistryView {
        RegistryView { next_id: 1, scopes: Seq::empty() }
    }

    /// What holds of every registry: no credential twice, each with a number of
    /// its own as long as there are numbers, and never more than the bounds allow.
    pub open spec fn wf(self) -> bool {
        &&& self.next_id >= 1
        &&& self.scopes.len() <= MAX_CREDENTIAL_SCOPES
        &&& total_bytes(self.scopes) <= MAX_CREDENTIAL_REGISTRY_BYTES
        &&& forall|i: int|
            0 <= i < self.scopes.len() ==> text::byte_len((#[trigger] self.scopes[i]).0)
                <= MAX_CREDENTIAL_SCOPE_BYTES
        &&& forall|i: int, j: int|
            0 <= i < j < self.scopes.len() ==> (#[trigger] self.scopes[i]).0 != (
            #[trigger] self.scopes[j]).0
        &&& self.next_id < u128::MAX ==> forall|i: int|
            0 <= i < self.scopes.len() ==> (#[trigger] self.scopes[i]).1 < self.next_id
        &&& self.next_id < u128::MAX ==> forall|i: int, j: int|
            0 <= i < j < self.scopes.len() ==> (#[trigger] self.scopes[i]).1 != (
            #[trigger] self.scopes[j]).1
    }

    /// The number of a credential, and the registry after it was asked for. A
    /// request without credentials has the number zero; a credential that is too
    /// long gets a new number each time.
    pub open spec fn identified(self, credential: Seq<char>) -> (RegistryView, u128) {
        if credential.len() == 0 {
            (self, 0)
        } else {
            match scope_index(self.scopes, credential, 0) {
                Some(i) => (
                    RegistryView {
                        scopes: self.scopes.remove(i).push(self.scopes[i]),
                        ..self
                    },
                    tagged(self.scopes[i].1),
                ),
                None => {
                    let id = self.next_id;
                    let bytes = text::byte_len(credential);
                    if bytes > MAX_CREDENTIAL_SCOPE_BYTES {
                        (RegistryView { next_id: next_after(id), ..self }, tagged(id))
                    } else {
                        (
                            RegistryView {
                                next_id: next_after(id),
                                scopes: with_room(self.scopes, bytes).push((credential, id)),
                            },
                            tagged(id),
                        )
                    }
                },
            }
        }
    }
}

proof fn lemma_scope_index(scopes: Seq<(Seq<char>, u128)>, credential: Seq<char>, from: int)
    requires
        0 <= from,
    ensures
        match scope_index(scopes, credential, from) {
            Some(i) => from <= i < scopes.len() && scopes[i].0 == credential && (forall|j: int|
                from <= j < i ==> (#[trigger] scopes[j]).0 != credential),
            None => forall|j: int|
                from <= j < scopes.len() ==> (#[trigger] scopes[j]).0 != credential,
        },
    decreases scopes.len() - from,
{
    if from < scopes.len() && scopes[from].0 != credential {
        lemma_scope_index(scopes, credential, from + 1);
    }
}

proof fn lemma_total_first(scopes: Seq<(Seq<char>, u128)>)
    requires
        scopes.len() > 0,
    ensures
        total_bytes(scopes) == text::byte_len(scopes[0].0) + total_bytes(scopes.skip(1)),
    decreases scopes.len(),
{
    if scopes.len() == 1 {
        assert(scopes.skip(1) =~= Seq::empty());
        assert(scopes.drop_last() =~= Seq::empty());
    } else {
        lemma_total_first(scopes.drop_last());
        assert(scopes.drop_last().skip(1) =~= scopes.skip(1).drop_last());
    }
}

proof fn lemma_total_remove(scopes: Seq<(Seq<char>, u128)>, i: int)
    requires
        0 <= i < scopes.len(),
    ensures
        total_bytes(scopes.remove(i)) + text::byte_len(scopes[i].0) == total_bytes(scopes),
    decreases scopes.len(),
{
    if i == scopes.len() - 1 {
        assert(scopes.remove(i) =~= scopes.drop_last());
    } else {
        lemma_total_remove(scopes.drop_last(), i);
        assert(scopes.remove(i).drop_last() =~= scopes.drop_last().remove(i));
        assert(scopes.remove(i).last() == scopes.last());
    }
}

proof fn lemma_with_room(scopes: Seq<(Seq<char>, u128)>, bytes: nat)
    ensures
        with_room(scopes, bytes) == scopes.skip(scopes.len() - with_room(scopes, bytes).len()),
        with_room(scopes, bytes).len() <= scopes.len(),
        scopes.len() <= MAX_CREDENTIAL_SCOPES && bytes <= MAX_CREDENTIAL_REGISTRY_BYTES
            ==> with_room(scopes, bytes).len() < MAX_CREDENTIAL_SCOPES && total_bytes(
            with_room(scopes, bytes),
        ) + bytes <= MAX_CREDENTIAL_REGISTRY_BYTES,
    decreases scopes.len(),
{
    if scopes.len() > 0 && (scopes.len() >= MAX_CREDENTIAL_SCOPES || total_bytes(scopes) + bytes
        > MAX_CREDENTIAL_REGISTRY_BYTES) {
        lemma_with_room(scopes.skip(1), bytes);
        let r = with_room(scopes, bytes);
        assert(scopes.skip(1).skip(scopes.len() - 1 - r.len()) =~= scopes.skip(
            scopes.len() - r.len(),
        ));
    } else {
        assert(scopes.skip(0) =~= scopes);
    }
}

/// Asking for a number keeps every registry within its bounds.
pub proof fn law_identified_registry_is_bounded(registry: RegistryView, credential: Seq<char>)
    requires
        registry.wf(),
    ensures
        registry.identified(credential).0.wf(),
{
    let scopes = registry.scopes;
    lemma_scope_index(scopes, credential, 0);
    let after = registry.identified(credential).0;
    if credential.len() == 0 {
    } else if let Some(i) = scope_index(scopes, credential, 0) {
        lemma_total_remove(scopes, i);
        let rest = scopes.remove(i);
        let pushed = rest.push(scopes[i]);
        assert(pushed.drop_last() =~= rest);
        assert forall|k: int| 0 <= k < pushed.len() implies ({
            let j = if k == pushed.len() - 1 {
                i
            } else if k < i {
                k
            } else {
                k + 1
            };
            #[trigger] pushed[k] == scopes[j]
        }) by {}
        assert(after.wf());
    } else {
        let bytes = text::byte_len(credential);
        if bytes <= MAX_CREDENTIAL_SCOPE_BYTES {
            lemma_with_room(scopes, bytes);
            let rest = with_room(scopes, bytes);
            let pushed = rest.push((credential, registry.next_id));
            let gone = scopes.len() - rest.len();
            assert(pushed.drop_last() =~= rest);
            assert forall|k: int| 0 <= k < rest.len() implies #[trigger] pushed[k] == scopes[gone
                + k] by {}
            assert(after.scopes == pushed);
            assert(after.wf());
        } else {
            assert(after.wf());
        }
    }
}

/// A credential that is not too long is known again: asked for twice in a row it
/// has the same number.
pub proof fn law_credential_is_known_again(registry: RegistryView, credential: Seq<char>)
    requires
        registry.wf(),
        text::byte_len(credential) <= MAX_CREDENTIAL_SCOPE_BYTES,
    ensures
        registry.identified(credential).0.identified(credential).1 == registry.identified(
            credential,
        ).1,
{
    if credential.len() > 0 {
        let after = registry.identified(credential).0;
        law_identified_registry_is_bounded(registry, credential);
        lemma_scope_index(registry.scopes, credential, 0);
        lemma_scope_index(after.scopes, credential, 0);
        let last = after.scopes.len() - 1;
        assert(after.scopes[last].0 == credential);
    }
}

/// Two credentials that are remembered never have the same number.
pub proof fn law_credentials_are_told_apart(registry: RegistryView, i: int, j: int)
    requires
        registry.wf(),
        registry.next_id <= EXTERNAL_CREDENTIAL_SCOPE_TAG,
        0 <= i < registry.scopes.len(),
        0 <= j < registry.scopes.len(),
        i != j,
        registry.scopes[i].0.len() > 0,
        registry.scopes[j].0.len() > 0,
    ensures
        registry.identified(registry.scopes[i].0).1 != registry.identified(
            registry.scopes[j].0,
        ).1,
{
    let a = registry.scopes[i];
    let b = registry.scopes[j];
    lemma_scope_index(registry.scopes, a.0, 0);
    lemma_scope_index(registry.scopes, b.0, 0);
    lemma_tag_keeps_apart(a.1, b.1);
}

impl CredentialScopeRegistry {
    #[verifier::type_invariant]
    spec fn inv(self) -> bool {
        &&& self@.wf()
        &&& self.retained_bytes == total_bytes(self@.scopes)
    }

    /// A registry that remembers nothing.
    pub fn new() -> (r: CredentialScopeRegistry)
        ensures
            r@ == RegistryView::empty(),
    {
        let scopes: Vec<(String, u128)> = Vec::new();
        assert(scope_views(scopes@) =~= Seq::empty());
        CredentialScopeRegistry { next_id: 1, scopes, retained_bytes: 0 }
    }

    /// The number of a credential.
    pub fn identify(self, credential: String) -> (r: (CredentialScopeRegistry, u128))
        ensures
            (r.0@, r.1) == self@.identified(credential@),
            r.0@.wf(),
    {
        proof {
            use_type_invariant(&self);
            law_identified_registry_is_bounded(self@, credential@);
        }
        if credential.as_str().is_empty() {
            return (self, 0);
        }
        let ghost before = self@;
        let ghost name = credential@;
        let CredentialScopeRegistry { next_id, mut scopes, mut retained_bytes } = self;
        let mut i: usize = 0;
        while i < scopes.len()
            invariant_except_break
                i <= scopes.len(),
                name == credential@,
                before.scopes == scope_views(scopes@),
                scope_index(before.scopes, name, 0) == scope_index(before.scopes, name, i as int),
            ensures
                name == credential@,
                before.scopes == scope_views(scopes@),
                i <= scopes.len(),
                i < scopes.len() ==> scope_index(before.scopes, name, 0) == Some(i as int),
                i == scopes.len() ==> scope_index(before.scopes, name, 0) is None,
            decreases scopes.len() - i,
        {
            assert(before.scopes[i as int].0 == scopes@[i as int].0@);
            if text::same(scopes[i].0.as_str(), credential.as_str()) {
                break;
            }
            i = i + 1;
        }
        if i < scopes.len() {
            proof {
                lemma_scope_index(before.scopes, name, 0);
            }
            assert(before.scopes[i as int].1 == scopes@[i as int].1);
            let known = scopes.remove(i);
            let id: u128 = known.1;
            assert(scope_views(scopes@) =~= before.scopes.remove(i as int));
            scopes.push((credential, id));
            assert(scope_views(scopes@) =~= before.scopes.remove(i as int).push(
                before.scopes[i as int],
            ));
            proof {
                lemma_total_remove(before.scopes, i as int);
                assert(before.scopes.remove(i as int).push(before.scopes[i as int]).drop_last()
                    =~= before.scopes.remove(i as int));
            }
            let registry = CredentialScopeRegistry { next_id, scopes, retained_bytes };
            return (registry, external_credential_scope_id(id));
        }
        let next: u128 = if next_id == u128::MAX {
            next_id
        } else {
            next_id + 1
        };
        let bytes: usize = text::byte_count(credential.as_str());
        if bytes > MAX_CREDENTIAL_SCOPE_BYTES {
            let registry = CredentialScopeRegistry { next_id: next, scopes, retained_bytes };
            return (registry, external_credential_scope_id(next_id));
        }
        while scopes.len() > 0 && (scopes.len() >= MAX_CREDENTIAL_SCOPES || retained_bytes + bytes
            > MAX_CREDENTIAL_REGISTRY_BYTES)
            invariant
                bytes <= MAX_CREDENTIAL_SCOPE_BYTES,
                retained_bytes <= MAX_CREDENTIAL_REGISTRY_BYTES,
                retained_bytes == total_bytes(scope_views(scopes@)),
                with_room(before.scopes, bytes as nat) == with_room(
                    scope_views(scopes@),
                    bytes as nat,
                ),
            decreases scopes.len(),
        {
            let ghost start = scope_views(scopes@);
            proof {
                lemma_total_first(start);
            }
            let oldest = scopes.remove(0);
            assert(scope_views(scopes@) =~= start.skip(1));
            assert(start[0].0 == oldest.0@);
            retained_bytes = retained_bytes - text::byte_count(oldest.0.as_str());
        }
        let ghost rest = scope_views(scopes@);
        retained_bytes = retained_bytes + bytes;
        scopes.push((credential, next_id));
        assert(scope_views(scopes@) =~= rest.push((name, before.next_id)));
        assert(rest.push((name, before.next_id)).drop_last() =~= rest);
        let registry = CredentialScopeRegistry { next_id: next, scopes, retained_bytes };
        (registry, external_credential_scope_id(next_id))
    }
}

} // verus!
