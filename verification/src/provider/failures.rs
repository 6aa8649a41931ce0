//! What a provider says when it fails, read without showing secrets.
use vstd::prelude::*;
use vstd::string::*;

use crate::json;
use crate::json::{Json, Tree};
use crate::provider::endpoint;
use crate::provider::message;
use crate::provider::secrets;
use crate::provider::types::{ErrorView, MetadataView, ProviderError, ProviderErrorMetadata};
use crate::text;

verus! {

/// Most characters of a failure that are kept.
pub const MAX_ERROR_CHARS: usize = 512;

/// Nanoseconds of a second.
pub const SECOND_NANOS: u128 = 1_000_000_000;

/// The beginning of a failure's text.
pub fn truncate_error(body: &str) -> (r: String)
    ensures
        r@ == text::first_chars(body@, 512),
{
    text::first_chars_of(body, MAX_ERROR_CHARS)
}

/// A text that may be shown: first the secrets go, then what is too long.
pub open spec fn excerpt(s: Seq<char>, values: Seq<Seq<char>>) -> Seq<char> {
    text::first_chars(secrets::redacted(s, values), 512)
}

fn excerpt_of(s: &str, values: &Vec<String>) -> (r: String)
    ensures
        r@ == excerpt(s@, text::texts(values@)),
{
    let clean = secrets::redact_values(s, values);
    truncate_error(clean.as_str())
}

/// The part of an answer that describes the error.
pub open spec fn error_part(tree: Tree) -> Tree {
    if tree.get("error"@) matches Some(e) && e is Object {
        tree.get("error"@)->0
    } else if json::under(tree, "response"@, "error"@) matches Some(e) && e is Object {
        json::under(tree, "response"@, "error"@)->0
    } else {
        tree
    }
}

fn error_of(value: &Json) -> (r: &Json)
    ensures
        r@ == error_part(value@),
{
    if let Some(error) = value.get("error") {
        if error.is_object() {
            return error;
        }
    }
    if let Some(error) = value.under("response", "error") {
        if error.is_object() {
            return error;
        }
    }
    value
}

/// A text of the error that is not empty, as it may be shown.
pub open spec fn error_field(field: Option<Tree>, values: Seq<Seq<char>>) -> Option<Seq<char>> {
    match field {
        Some(Tree::Text(s)) => if s.len() > 0 {
            Some(excerpt(s, values))
        } else {
            None
        },
        _ => None,
    }
}

fn field_of(field: Option<&Json>, values: &Vec<String>) -> (r: Option<String>)
    ensures
        ({
            let tree = match field {
                Some(j) => Some(j@),
                None => None,
            };
            message::opt_text(r) == error_field(tree, text::texts(values@))
        }),
{
    let value = match field {
        Some(value) => value,
        None => return None,
    };
    match value.as_str() {
        Some(s) => if s.is_empty() {
            None
        } else {
            Some(excerpt_of(s, values))
        },
        None => None,
    }
}

/// The codes of an error.
pub open spec fn error_metadata(
    error: Tree,
    status: Option<u16>,
    retry_after: Option<u128>,
    values: Seq<Seq<char>>,
) -> MetadataView {
    let kind = error_field(error.get("type"@), values);
    MetadataView {
        status,
        code: error_field(error.get("code"@), values),
        error_type: if kind == Some("error"@) {
            None
        } else {
            kind
        },
        detail_code: error_field(json::under(error, "details"@, "error_code"@), values),
        retry_after,
    }
}

/// What an answer says of an error, where it carries a code.
pub open spec fn structured_error(
    tree: Tree,
    status: Option<u16>,
    retry_after: Option<u128>,
    values: Seq<Seq<char>>,
) -> Option<ErrorView> {
    let error = error_part(tree);
    let metadata = error_metadata(error, status, retry_after, values);
    if metadata.classification() is None {
        None
    } else {
        let message = match error.text_at("message"@) {
            Some(m) => m,
            None => "provider error"@,
        };
        Some(ErrorView::Api { metadata, message: excerpt(message, values) })
    }
}

pub open spec fn opt_error(error: Option<ProviderError>) -> Option<ErrorView> {
    match error {
        Some(e) => Some(e@),
        None => None,
    }
}

/// Reads the error of an answer, where it carries a code.
pub fn structured_provider_error(
    value: &Json,
    status: Option<u16>,
    retry_after: Option<u128>,
    sensitive_values: &Vec<String>,
) -> (r: Option<ProviderError>)
    ensures
        opt_error(r) == structured_error(
            value@,
            status,
            retry_after,
            text::texts(sensitive_values@),
        ),
{
    let error = error_of(value);
    let mut error_type = field_of(error.get("type"), sensitive_values);
    let is_error = match &error_type {
        Some(kind) => text::same(kind.as_str(), "error"),
        None => false,
    };
    if is_error {
        error_type = None;
    }
    let metadata = ProviderErrorMetadata {
        status,
        code: field_of(error.get("code"), sensitive_values),
        error_type,
        detail_code: field_of(error.under("details", "error_code"), sensitive_values),
        retry_after,
    };
    assert(metadata@ =~= error_metadata(
        error@,
        status,
        retry_after,
        text::texts(sensitive_values@),
    ));
    if metadata.classification_code().is_none() {
        return None;
    }
    let message = match error.str_at("message") {
        Some(message) => message,
        None => "provider error",
    };
    let message = excerpt_of(message, sensitive_values);
    Some(ProviderError::Api { metadata, message })
}

/// The message of an answer that carries no code.
pub open spec fn plain_message(tree: Tree) -> Seq<char> {
    let found = if json::under(tree, "error"@, "message"@) is Some {
        json::under(tree, "error"@, "message"@)
    } else if tree.get("response"@) matches Some(response) && json::under(
        response,
        "error"@,
        "message"@,
    ) is Some {
        json::under(tree.get("response"@)->0, "error"@, "message"@)
    } else {
        tree.get("message"@)
    };
    match found {
        Some(Tree::Text(m)) => m,
        _ => "provider error"@,
    }
}

/// The error that an event of a stream reports.
pub open spec fn stream_error(tree: Tree, values: Seq<Seq<char>>) -> ErrorView {
    match structured_error(tree, None, None, values) {
        Some(error) => error,
        None => ErrorView::Remote { message: excerpt(plain_message(tree), values) },
    }
}

/// The error that an event of a stream reports, with the secrets given.
pub fn stream_error_with(value: &Json, values: &Vec<String>) -> (r: ProviderError)
    ensures
        r@ == stream_error(value@, text::texts(values@)),
{
    if let Some(error) = structured_provider_error(value, None, None, values) {
        return error;
    }
    let mut found = value.under("error", "message");
    if found.is_none() {
        if let Some(response) = value.get("response") {
            found = response.under("error", "message");
        }
    }
    if found.is_none() {
        found = value.get("message");
    }
    let message = match found {
        Some(value) => match value.as_str() {
            Some(s) => s,
            None => "provider error",
        },
        None => "provider error",
    };
    ProviderError::Remote { message: excerpt_of(message, values) }
}

/// The error that an event of a stream reports, without what is secret in the
/// endpoint and without the credential.
pub fn stream_provider_error(value: &Json, endpoint: &str, credential: &str) -> (r: ProviderError)
    ensures
        r@ == stream_error(value@, endpoint::endpoint_secrets(endpoint@).push(credential@)),
{
    let mut values = endpoint::endpoint_sensitive_values(endpoint);
    let ghost start = values@;
    values.push(credential.to_owned());
    assert(text::texts(values@) =~= text::texts(start).push(credential@));
    stream_error_with(value, &values)
}

pub open spec fn opt_redacted(s: Option<Seq<char>>, values: Seq<Seq<char>>) -> Option<Seq<char>> {
    match s {
        Some(t) => Some(secrets::redacted(t, values)),
        None => None,
    }
}

/// An error without the secrets.
pub open spec fn redacted_error(error: ErrorView, values: Seq<Seq<char>>) -> ErrorView {
    match error {
        ErrorView::Api { metadata, message } => ErrorView::Api {
            metadata: MetadataView {
                code: opt_redacted(metadata.code, values),
                error_type: opt_redacted(metadata.error_type, values),
                detail_code: opt_redacted(metadata.detail_code, values),
                ..metadata
            },
            message: secrets::redacted(message, values),
        },
        ErrorView::Transport { safe_to_retry, message } => ErrorView::Transport {
            safe_to_retry,
            message: secrets::redacted(message, values),
        },
        ErrorView::Remote { message } => ErrorView::Remote {
            message: secrets::redacted(message, values),
        },
        ErrorView::TransientRemote { message } => ErrorView::TransientRemote {
            message: secrets::redacted(message, values),
        },
        ErrorView::Http { status, retry_after, message } => ErrorView::Http {
            status,
            retry_after,
            message: secrets::redacted(message, values),
        },
        ErrorView::InvalidResponse { message } => ErrorView::InvalidResponse {
            message: secrets::redacted(message, values),
        },
        ErrorView::MalformedToolCall => error,
        ErrorView::Cancelled => error,
    }
}

fn redact_opt(s: &Option<String>, values: &Vec<String>) -> (r: Option<String>)
    ensures
        message::opt_text(r) == opt_redacted(message::opt_text(*s), text::texts(values@)),
{
    match s {
        Some(t) => Some(secrets::redact_values(t.as_str(), values)),
        None => None,
    }
}

/// Takes the secrets out of an error.
pub fn redact_provider_error_values(error: ProviderError, sensitive_values: &Vec<String>) -> (r:
    ProviderError)
    ensures
        r@ == redacted_error(error@, text::texts(sensitive_values@)),
{
    match error {
        ProviderError::Api { metadata, message } => {
            let clean = ProviderErrorMetadata {
                status: metadata.status,
                code: redact_opt(&metadata.code, sensitive_values),
                error_type: redact_opt(&metadata.error_type, sensitive_values),
                detail_code: redact_opt(&metadata.detail_code, sensitive_values),
                retry_after: metadata.retry_after,
            };
            ProviderError::Api {
                metadata: clean,
                message: secrets::redact_values(message.as_str(), sensitive_values),
            }
        },
        ProviderError::Transport { safe_to_retry, message } => ProviderError::Transport {
            safe_to_retry,
            message: secrets::redact_values(message.as_str(), sensitive_values),
        },
        ProviderError::Remote { message } => ProviderError::Remote {
            message: secrets::redact_values(message.as_str(), sensitive_values),
        },
        ProviderError::TransientRemote { message } => ProviderError::TransientRemote {
            message: secrets::redact_values(message.as_str(), sensitive_values),
        },
        ProviderError::Http { status, retry_after, message } => ProviderError::Http {
            status,
            retry_after,
            message: secrets::redact_values(message.as_str(), sensitive_values),
        },
        ProviderError::InvalidResponse { message } => ProviderError::InvalidResponse {
            message: secrets::redact_values(message.as_str(), sensitive_values),
        },
        ProviderError::MalformedToolCall => ProviderError::MalformedToolCall,
        ProviderError::Cancelled => ProviderError::Cancelled,
    }
}

/// The second since the epoch that `httpdate` reads a date as.
pub uninterp spec fn http_date(text: Seq<char>) -> Option<u64>;

/// `httpdate::parse_http_date`: the second since the epoch, where the text is a
/// date of HTTP. Which texts are is not restated; the result is named.
#[verifier::external_body]
fn http_date_seconds(value: &str) -> (r: Option<u64>)
    ensures
        r == http_date(value@),
{
    let date = httpdate::parse_http_date(value).ok()?;
    let age = date.duration_since(std::time::UNIX_EPOCH).ok()?;
    Some(age.as_secs())
}

/// The delay that lasts from `now` to a second since the epoch, in nanoseconds.
pub open spec fn delay_until(second: u64, now: u128) -> u128 {
    if second * SECOND_NANOS <= now {
        0
    } else {
        (second * SECOND_NANOS - now) as u128
    }
}

/// The delay in nanoseconds that a header asks for at `now`: a number of seconds,
/// however large, or a date.
pub open spec fn retry_delay(value: Seq<char>, now: u128) -> Option<u128> {
    let trimmed = text::trim(value);
    if trimmed.len() > 0 && json::all_digits(trimmed) {
        Some(
            match json::number_u64(trimmed) {
                Some(seconds) => (seconds * SECOND_NANOS) as u128,
                None => (u64::MAX * SECOND_NANOS) as u128,
            },
        )
    } else {
        match http_date(trimmed) {
            Some(second) => Some(delay_until(second, now)),
            None => None,
        }
    }
}

fn digits_alone(s: &str) -> (r: bool)
    ensures
        r == (s@.len() > 0 && json::all_digits(s@)),
{
    let chars = text::chars_of(s);
    let mut i: usize = 0;
    while i < chars.len()
        invariant
            i <= chars.len(),
            chars@ == s@,
            forall|k: int| 0 <= k < i ==> json::is_digit(#[trigger] s@[k]),
        decreases chars.len() - i,
    {
        if chars[i] < '0' || chars[i] > '9' {
            assert(!json::is_digit(s@[i as int]));
            return false;
        }
        i = i + 1;
    }
    chars.len() > 0
}

/// The delay from `now` to a second since the epoch, in nanoseconds.
pub fn nanos_until(second: u64, now: u128) -> (r: u128)
    ensures
        r == delay_until(second, now),
{
    let deadline: u128 = second as u128 * SECOND_NANOS;
    if deadline <= now {
        0
    } else {
        deadline - now
    }
}

/// Reads how long to wait before another attempt, in nanoseconds. A number of
/// seconds that is too large is still an instruction to wait.
pub fn parse_retry_after(value: &str, now: u128) -> (r: Option<u128>)
    ensures
        r == retry_delay(value@, now),
{
    let trimmed = text::trimmed(value);
    if digits_alone(trimmed.as_str()) {
        let seconds: u64 = match json::parse_u64(trimmed.as_str()) {
            Some(seconds) => seconds,
            None => u64::MAX,
        };
        return Some(seconds as u128 * SECOND_NANOS);
    }
    match http_date_seconds(trimmed.as_str()) {
        Some(second) => Some(nanos_until(second, now)),
        None => None,
    }
}

} // verus!
