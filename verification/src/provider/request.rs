//! A request made ready to be sent: its bytes, what they are made of, and the
//! keys it is known by.
use vstd::prelude::*;
use vstd::string::*;
use vstd::utf8::*;

use crate::arith;
use crate::json;
use crate::json::{Json, Tree};
use crate::provider::accounting;
use crate::provider::accounting::{ProviderRequestComponents, ProviderRequestFingerprints};
use crate::provider::bodies;
use crate::provider::endpoint;
use crate::provider::endpoint::{HttpRequest, RequestView};
use crate::provider::identity;
use crate::provider::message;
use crate::provider::secrets;
use crate::provider::types::{ErrorView, ProviderError, ProviderKind};
use crate::text;
use crate::url;

verus! {

/// What a provider offers to save prompts and reports of it.
#[derive(Clone, Copy, Debug, PartialEq, Eq, Structural)]
pub struct ProviderCapabilities {
    pub supports_prompt_cache_key: bool,
    pub supports_prompt_cache_options: bool,
    pub supports_top_level_cache_control: bool,
    pub supports_explicit_cache_breakpoints: bool,
    pub supports_cache_ttl: bool,
    pub reports_cache_read_tokens: bool,
    pub reports_cache_write_tokens: bool,
}

pub open spec fn no_capabilities() -> ProviderCapabilities {
    ProviderCapabilities {
        supports_prompt_cache_key: false,
        supports_prompt_cache_options: false,
        supports_top_level_cache_control: false,
        supports_explicit_cache_breakpoints: false,
        supports_cache_ttl: false,
        reports_cache_read_tokens: false,
        reports_cache_write_tokens: false,
    }
}

impl Default for ProviderCapabilities {
    fn default() -> (r: ProviderCapabilities)
        ensures
            r == no_capabilities(),
    {
        ProviderCapabilities {
            supports_prompt_cache_key: false,
            supports_prompt_cache_options: false,
            supports_top_level_cache_control: false,
            supports_explicit_cache_breakpoints: false,
            supports_cache_ttl: false,
            reports_cache_read_tokens: false,
            reports_cache_write_tokens: false,
        }
    }
}

/// What a request is to be known by, told by the adapter that makes it: the kind
/// of the provider and of its wire, the model, the scope of its credentials and
/// the credentials themselves.
pub struct RequestRoute {
    pub kind: ProviderKind,
    pub wire_kind: ProviderKind,
    pub model: String,
    pub scope_id: u128,
    pub sensitive_values: Vec<String>,
}

#[verifier::ext_equal]
pub struct RouteView {
    pub kind: ProviderKind,
    pub wire_kind: ProviderKind,
    pub model: Seq<char>,
    pub scope_id: u128,
    pub values: Seq<Seq<char>>,
}

impl View for RequestRoute {
    type V = RouteView;

    open spec fn view(&self) -> RouteView {
        RouteView {
            kind: self.kind,
            wire_kind: self.wire_kind,
            model: self.model@,
            scope_id: self.scope_id,
            values: text::texts(self.sensitive_values@),
        }
    }
}

/// A request made ready to be sent.
pub struct PreparedProviderRequest {
    url: String,
    headers: Vec<(String, String)>,
    body: Vec<u8>,
    components: ProviderRequestComponents,
    serialized_chars: u64,
    estimated_tokens: u64,
    stable_prefixes: ProviderRequestFingerprints,
    prompt_cache_routing_key: String,
    response_cache_scope_id: u128,
    sensitive_values: Vec<String>,
    response_cache_key: Option<String>,
}

#[verifier::ext_equal]
pub struct PreparedView {
    pub url: Seq<char>,
    pub headers: Seq<(Seq<char>, Seq<char>)>,
    pub body: Seq<u8>,
    pub components: ProviderRequestComponents,
    pub serialized_chars: u64,
    pub estimated_tokens: u64,
    pub stable_prefixes: ProviderRequestFingerprints,
    pub routing_key: Seq<char>,
    pub scope_id: u128,
    pub values: Seq<Seq<char>>,
    pub response_cache_key: Option<Seq<char>>,
}

impl PreparedProviderRequest {
    /// The body is a text, and its characters are counted.
    #[verifier::type_invariant]
    spec fn in_step(self) -> bool {
        &&& valid_utf8(self.body@)
        &&& self.serialized_chars == decode_utf8(self.body@).len()
    }
}

impl View for PreparedProviderRequest {
    type V = PreparedView;

    closed spec fn view(&self) -> PreparedView {
        PreparedView {
            url: self.url@,
            headers: url::pair_views(self.headers@),
            body: self.body@,
            components: self.components,
            serialized_chars: self.serialized_chars,
            estimated_tokens: self.estimated_tokens,
            stable_prefixes: self.stable_prefixes,
            routing_key: self.prompt_cache_routing_key@,
            scope_id: self.response_cache_scope_id,
            values: text::texts(self.sensitive_values@),
            response_cache_key: message::opt_text(self.response_cache_key),
        }
    }
}

/// What is secret in a request, in its normal form.
pub open spec fn request_secrets(route: RouteView, request: RequestView) -> Seq<Seq<char>> {
    secrets::normal_secrets(
        route.values + endpoint::header_secrets(request.headers) + endpoint::endpoint_secrets(
            request.url,
        ),
    )
}

/// What the parts of a request are recognised by, where those of its beginning
/// may be known already.
pub open spec fn request_prefixes(
    tree: Option<Tree>,
    known: Option<ProviderRequestFingerprints>,
) -> ProviderRequestFingerprints {
    match (known, tree) {
        (Some(prefixes), Some(t)) => ProviderRequestFingerprints {
            history: accounting::history_fingerprint(t),
            ..prefixes
        },
        (Some(prefixes), None) => ProviderRequestFingerprints { history: 0, ..prefixes },
        (None, Some(t)) => accounting::fingerprints_of(t),
        (None, None) => accounting::no_fingerprints(),
    }
}

/// A request made ready, its body read as `tree`.
pub open spec fn prepared(
    request: RequestView,
    tree: Option<Tree>,
    route: RouteView,
    known: Option<ProviderRequestFingerprints>,
) -> PreparedView {
    let prefixes = request_prefixes(tree, known);
    PreparedView {
        url: request.url,
        headers: request.headers,
        body: encode_utf8(request.body),
        components: match tree {
            Some(t) => accounting::components_of(t),
            None => accounting::no_components(),
        },
        serialized_chars: arith::clamp64(request.body.len() as int),
        estimated_tokens: 0,
        stable_prefixes: prefixes,
        routing_key: identity::routing_key(
            route.kind,
            route.wire_kind,
            route.model,
            request.url,
            request.headers,
            route.scope_id,
            prefixes,
        ),
        scope_id: route.scope_id,
        values: request_secrets(route, request),
        response_cache_key: None,
    }
}

/// Whether bytes are the text of a tree and read back as that tree.
pub open spec fn reads_as(bytes: Seq<u8>, tree: Tree) -> bool {
    &&& bytes == encode_utf8(json::json_text(tree))
    &&& json::parsed(json::json_text(tree)) == Ok::<Tree, Seq<char>>(tree)
}

/// What a text is read as, where it is JSON.
pub open spec fn read_body(body: Seq<char>) -> Option<Tree> {
    match json::parsed(body) {
        Ok(tree) => Some(tree),
        Err(_) => None,
    }
}

pub open spec fn opt_tree(value: Option<&Json>) -> Option<Tree> {
    match value {
        Some(j) => Some(j@),
        None => None,
    }
}

pub open spec fn some_tree(value: Option<Json>) -> Option<Tree> {
    match value {
        Some(j) => Some(j@),
        None => None,
    }
}

impl PreparedView {
    /// The request with the key under which its answer is kept.
    pub open spec fn with_response_key(self, kind: ProviderKind, model: Seq<char>) -> PreparedView {
        PreparedView {
            response_cache_key: Some(
                identity::response_key(
                    kind,
                    model,
                    self.scope_id,
                    self.url,
                    self.headers,
                    self.body,
                ),
            ),
            ..self
        }
    }
}

impl PreparedProviderRequest {
    /// Makes a request ready whose body was read, or could not be.
    pub fn from_parsed(
        request: HttpRequest,
        body_value: Option<&Json>,
        route: &RequestRoute,
        stable_prefixes: Option<ProviderRequestFingerprints>,
    ) -> (r: PreparedProviderRequest)
        ensures
            r@ == prepared(request@, opt_tree(body_value), route@, stable_prefixes),
    {
        let mut values: Vec<String> = Vec::new();
        let mut i: usize = 0;
        while i < route.sensitive_values.len()
            invariant
                i <= route.sensitive_values.len(),
                text::texts(values@) == text::texts(route.sensitive_values@).take(i as int),
            decreases route.sensitive_values.len() - i,
        {
            let ghost done = values@;
            values.push(route.sensitive_values[i].clone());
            assert(text::texts(values@) =~= text::texts(done).push(
                route.sensitive_values@[i as int]@,
            ));
            assert(text::texts(route.sensitive_values@).take(i + 1) =~= text::texts(
                route.sensitive_values@,
            ).take(i as int).push(route.sensitive_values@[i as int]@));
            i = i + 1;
        }
        assert(text::texts(values@) =~= text::texts(route.sensitive_values@));
        endpoint::collect_request_sensitive_values(&request, &mut values);
        let sensitive_values = secrets::normalize_sensitive_values(&values);
        let components = match body_value {
            Some(value) => accounting::provider_request_components(value),
            None => ProviderRequestComponents::default(),
        };
        let prefixes = match stable_prefixes {
            Some(known) => {
                let history: u64 = match body_value {
                    Some(value) => accounting::provider_history_fingerprint(value),
                    None => 0,
                };
                ProviderRequestFingerprints { history, ..known }
            },
            None => match body_value {
                Some(value) => accounting::provider_request_fingerprints(value),
                None => ProviderRequestFingerprints::default(),
            },
        };
        let routing_key = identity::prompt_cache_routing_key(
            route.kind,
            route.wire_kind,
            route.model.as_str(),
            request.url.as_str(),
            &request.headers,
            route.scope_id,
            prefixes,
        );
        let serialized_chars: u64 = text::char_count(request.body.as_str()) as u64;
        proof {
            encode_utf8_valid_utf8(request.body@);
            encode_utf8_decode_utf8(request.body@);
        }
        PreparedProviderRequest {
            body: text::bytes_of(request.body.as_str()),
            url: request.url,
            headers: request.headers,
            components,
            serialized_chars,
            estimated_tokens: 0,
            stable_prefixes: prefixes,
            prompt_cache_routing_key: routing_key,
            response_cache_scope_id: route.scope_id,
            sensitive_values,
            response_cache_key: None,
        }
    }

    /// Makes a request ready. Its body is read where what it was read as is not
    /// given.
    pub fn from_http_request_and_value(
        request: HttpRequest,
        parsed_body: Option<&Json>,
        route: &RequestRoute,
        stable_prefixes: Option<ProviderRequestFingerprints>,
    ) -> (r: PreparedProviderRequest)
        ensures
            r@ == prepared(
                request@,
                match parsed_body {
                    Some(j) => Some(j@),
                    None => read_body(request@.body),
                },
                route@,
                stable_prefixes,
            ),
    {
        match parsed_body {
            Some(value) => PreparedProviderRequest::from_parsed(
                request,
                Some(value),
                route,
                stable_prefixes,
            ),
            None => match json::parse(request.body.as_str()) {
                Ok(value) => PreparedProviderRequest::from_parsed(
                    request,
                    Some(&value),
                    route,
                    stable_prefixes,
                ),
                Err(_) => PreparedProviderRequest::from_parsed(
                    request,
                    None,
                    route,
                    stable_prefixes,
                ),
            },
        }
    }

    /// Makes a request ready whose body is a text.
    pub fn from_http_request(request: HttpRequest, route: &RequestRoute) -> (r:
        PreparedProviderRequest)
        ensures
            r@ == prepared(request@, read_body(request@.body), route@, None),
    {
        PreparedProviderRequest::from_http_request_and_value(request, None, route, None)
    }

    /// Makes a request ready whose body is a value, with what its beginning is
    /// recognised by where that is known.
    pub fn from_http_body_with_prefixes(
        url: String,
        headers: Vec<(String, String)>,
        body: &Json,
        route: &RequestRoute,
        stable_prefixes: Option<ProviderRequestFingerprints>,
    ) -> (r: PreparedProviderRequest)
        ensures
            r@ == prepared(
                (RequestView {
                    url: url@,
                    headers: url::pair_views(headers@),
                    body: json::json_text(body@),
                }),
                Some(body@),
                route@,
                stable_prefixes,
            ),
            json::keeps(body@, json::MAX_READ_LEVELS as nat) ==> reads_as(r@.body, body@),
    {
        let encoded = json::to_text(body);
        PreparedProviderRequest::from_http_request_and_value(
            HttpRequest { url, headers, body: encoded },
            Some(body),
            route,
            stable_prefixes,
        )
    }

    /// Makes a request ready whose body is a value.
    pub fn from_http_body(
        url: String,
        headers: Vec<(String, String)>,
        body: &Json,
        route: &RequestRoute,
    ) -> (r: PreparedProviderRequest)
        ensures
            r@ == prepared(
                (RequestView {
                    url: url@,
                    headers: url::pair_views(headers@),
                    body: json::json_text(body@),
                }),
                Some(body@),
                route@,
                None,
            ),
            json::keeps(body@, json::MAX_READ_LEVELS as nat) ==> reads_as(r@.body, body@),
    {
        PreparedProviderRequest::from_http_body_with_prefixes(url, headers, body, route, None)
    }

    /// Sets how many tokens the request is thought to have.
    pub fn with_estimated_tokens(self, estimated_tokens: u64) -> (r: PreparedProviderRequest)
        ensures
            r@ == (PreparedView { estimated_tokens, ..self@ }),
    {
        let mut r = self;
        proof {
            use_type_invariant(&r);
        }
        r.estimated_tokens = estimated_tokens;
        r
    }

    pub fn url(&self) -> (r: &str)
        ensures
            r@ == self@.url,
    {
        self.url.as_str()
    }

    pub fn headers(&self) -> (r: &Vec<(String, String)>)
        ensures
            url::pair_views(r@) == self@.headers,
    {
        &self.headers
    }

    pub fn sensitive_values(&self) -> (r: &Vec<String>)
        ensures
            text::texts(r@) == self@.values,
    {
        &self.sensitive_values
    }

    pub fn body(&self) -> (r: &Vec<u8>)
        ensures
            r@ == self@.body,
            valid_utf8(r@),
    {
        proof {
            use_type_invariant(self);
        }
        &self.body
    }

    pub fn components(&self) -> (r: ProviderRequestComponents)
        ensures
            r == self@.components,
    {
        self.components
    }

    /// The number of characters, not of bytes, of the body.
    pub fn serialized_chars(&self) -> (r: u64)
        ensures
            r == self@.serialized_chars,
            valid_utf8(self@.body),
            r == decode_utf8(self@.body).len(),
    {
        proof {
            use_type_invariant(self);
        }
        self.serialized_chars
    }

    pub fn estimated_tokens(&self) -> (r: u64)
        ensures
            r == self@.estimated_tokens,
    {
        self.estimated_tokens
    }

    pub fn stable_prefixes(&self) -> (r: ProviderRequestFingerprints)
        ensures
            r == self@.stable_prefixes,
    {
        self.stable_prefixes
    }

    pub fn prompt_cache_routing_key(&self) -> (r: &str)
        ensures
            r@ == self@.routing_key,
    {
        self.prompt_cache_routing_key.as_str()
    }

    /// The key under which the answer is kept, where it is.
    pub fn response_cache_key(&self) -> (r: Option<&str>)
        ensures
            url::opt_view(r) == self@.response_cache_key,
    {
        match &self.response_cache_key {
            Some(key) => Some(key.as_str()),
            None => None,
        }
    }

    /// The scope of the request's credentials.
    pub fn response_cache_scope_id(&self) -> (r: u128)
        ensures
            r == self@.scope_id,
    {
        self.response_cache_scope_id
    }

    /// The most tokens that the request asks for, where it says so.
    pub fn output_token_limit(&self) -> (r: Option<u64>)
        ensures
            r == (match json::parsed_bytes(self@.body) {
                Ok(tree) => bodies::limit_of(tree),
                Err(_) => None,
            }),
    {
        match json::parse_bytes(self.body.as_slice()) {
            Ok(value) => bodies::output_limit_of(&value),
            Err(_) => None,
        }
    }

    /// Has the request routed as that of another adapter.
    pub fn with_routing_identity(self, kind: ProviderKind, wire_kind: ProviderKind, model: &str) -> (r:
        PreparedProviderRequest)
        ensures
            r@ == (PreparedView {
                routing_key: identity::routing_key(
                    kind,
                    wire_kind,
                    model@,
                    self@.url,
                    self@.headers,
                    self@.scope_id,
                    self@.stable_prefixes,
                ),
                ..self@
            }),
    {
        let mut r = self;
        proof {
            use_type_invariant(&r);
        }
        r.prompt_cache_routing_key = identity::prompt_cache_routing_key(
            kind,
            wire_kind,
            model,
            r.url.as_str(),
            &r.headers,
            r.response_cache_scope_id,
            r.stable_prefixes,
        );
        r
    }

    /// The key under which the answer to the request would be kept.
    pub fn cache_key(&self, kind: ProviderKind, model: &str) -> (r: String)
        ensures
            r@ == identity::response_key(
                kind,
                model@,
                self@.scope_id,
                self@.url,
                self@.headers,
                self@.body,
            ),
    {
        identity::prepared_response_cache_key(
            kind,
            model,
            self.response_cache_scope_id,
            self.url.as_str(),
            &self.headers,
            &self.body,
        )
    }

    /// Has the answer to the request kept under its key.
    pub fn with_response_cache_key(self, kind: ProviderKind, model: &str) -> (r:
        PreparedProviderRequest)
        ensures
            r@ == self@.with_response_key(kind, model@),
    {
        let key = self.cache_key(kind, model);
        let mut r = self;
        proof {
            use_type_invariant(&r);
        }
        r.response_cache_key = Some(key);
        r
    }

    /// Makes the request ready again with a body that was changed; its answer is
    /// kept where there is a cache.
    pub fn rebuilt(self, body: &Json, route: &RequestRoute, cached: bool) -> (r:
        PreparedProviderRequest)
        ensures
            ({
                let again = prepared(
                    (RequestView {
                        url: self@.url,
                        headers: self@.headers,
                        body: json::json_text(body@),
                    }),
                    Some(body@),
                    route@,
                    Some(self@.stable_prefixes),
                );
                r@ == (if cached {
                    again.with_response_key(route@.kind, route@.model)
                } else {
                    again
                })
            }),
    {
        let r = PreparedProviderRequest::from_http_body_with_prefixes(
            self.url,
            self.headers,
            body,
            route,
            Some(self.stable_prefixes),
        );
        if cached {
            r.with_response_cache_key(route.kind, route.model.as_str())
        } else {
            r
        }
    }

    /// Raises the limits that the request has, and makes it ready again.
    pub fn with_recovery_output_limit(self, limit: u64, route: &RequestRoute, cached: bool) -> (r:
        Result<PreparedProviderRequest, ProviderError>)
        ensures
            (match (r, json::parsed_bytes(self@.body)) {
                (Ok(request), Ok(tree)) => {
                    let body = bodies::with_limit(tree, limit);
                    let again = prepared(
                        (RequestView {
                            url: self@.url,
                            headers: self@.headers,
                            body: json::json_text(body),
                        }),
                        Some(body),
                        route@,
                        Some(self@.stable_prefixes),
                    );
                    request@ == (if cached {
                        again.with_response_key(route@.kind, route@.model)
                    } else {
                        again
                    })
                },
                (Err(error), Err(_)) => error@ == (ErrorView::InvalidResponse {
                    message: "recovery request body is invalid JSON"@,
                }),
                _ => false,
            }),
    {
        match json::parse_bytes(self.body.as_slice()) {
            Ok(value) => {
                let body = bodies::raise_output_limit(value, limit);
                Ok(self.rebuilt(&body, route, cached))
            },
            Err(_) => Err(ProviderError::invalid("recovery request body is invalid JSON")),
        }
    }
}

/// Whether a request goes over the wire of Anthropic.
pub open spec fn anthropic_wire(headers: Seq<(Seq<char>, Seq<char>)>) -> bool {
    exists|i: int|
        0 <= i < headers.len() && text::lower((#[trigger] headers[i]).0) == text::lower(
            "anthropic-version"@,
        )
}

pub fn uses_anthropic_wire(headers: &Vec<(String, String)>) -> (r: bool)
    ensures
        r == anthropic_wire(url::pair_views(headers@)),
{
    let ghost all = url::pair_views(headers@);
    let mut i: usize = 0;
    while i < headers.len()
        invariant
            i <= headers.len(),
            all == url::pair_views(headers@),
            forall|k: int|
                0 <= k < i ==> text::lower((#[trigger] all[k]).0) != text::lower(
                    "anthropic-version"@,
                ),
        decreases headers.len() - i,
    {
        assert(all[i as int].0 == headers@[i as int].0@);
        if text::same_ignoring_case(headers[i].0.as_str(), "anthropic-version") {
            return true;
        }
        i = i + 1;
    }
    false
}

} // verus!
