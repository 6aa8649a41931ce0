//! The content of messages: its normal form, and how the two wire formats write
//! it.
use vstd::prelude::*;
use vstd::string::*;

use crate::json;
use crate::json::{Json, Tree};
use crate::provider::base64;
use crate::provider::canonical;
use crate::provider::message;
use crate::provider::message::{
    BlockView, CallView, MessageView, ProviderContentBlock, ProviderMessage, ProviderToolCall,
};
use crate::provider::types::{ErrorView, ProviderError};
use crate::text;

verus! {

/// ASCII control characters and white space.
pub open spec fn unfit_for_media_type(c: char) -> bool {
    (c as u32) < 0x20 || c as u32 == 0x7f || c == ' '
}

/// The normal form of a media type: trimmed, in small letters, without white
/// space or control characters.
pub open spec fn normal_media_type(s: Seq<char>) -> Option<Seq<char>> {
    let m = text::lower(text::trim(s));
    if m.len() == 0 || exists|i: int| 0 <= i < m.len() && unfit_for_media_type(#[trigger] m[i]) {
        None
    } else {
        Some(m)
    }
}

fn normalize_media_type(s: &str) -> (r: Option<String>)
    ensures
        match r {
            Some(m) => normal_media_type(s@) == Some(m@),
            None => normal_media_type(s@) is None,
        },
{
    let trimmed = text::trimmed(s);
    let m = text::lowered(trimmed.as_str());
    let chars = text::chars_of(m.as_str());
    if chars.len() == 0 {
        return None;
    }
    let mut i: usize = 0;
    while i < chars.len()
        invariant
            i <= chars@.len(),
            chars@ == m@,
            m@ == text::lower(text::trim(s@)),
            forall|k: int| 0 <= k < i ==> !unfit_for_media_type(#[trigger] m@[k]),
        decreases chars@.len() - i,
    {
        let c = chars[i];
        if (c as u32) < 0x20 || c as u32 == 0x7f || c == ' ' {
            assert(unfit_for_media_type(m@[i as int]));
            return None;
        }
        i = i + 1;
    }
    Some(m)
}

/// The words for a media type and for a payload that are refused.
pub open spec fn media_type_words() -> Seq<char> {
    "invalid multimodal media type"@
}

pub open spec fn payload_words() -> Seq<char> {
    "invalid base64 multimodal payload"@
}

/// A media type with a payload in normal form, or why they are refused.
pub open spec fn normal_data(media_type: Seq<char>, data: Seq<char>) -> Result<
    (Seq<char>, Seq<char>),
    Seq<char>,
> {
    match normal_media_type(media_type) {
        None => Err(media_type_words()),
        Some(m) => if base64::acceptable(data) {
            Ok((m, base64::normalized(data)))
        } else {
            Err(payload_words())
        },
    }
}

fn normalize_data(media_type: &str, data: &str) -> (r: Result<(String, String), ProviderError>)
    ensures
        match r {
            Ok(pair) => normal_data(media_type@, data@) == Ok::<(Seq<char>, Seq<char>), Seq<char>>(
                (pair.0@, pair.1@),
            ),
            Err(error) => normal_data(media_type@, data@) matches Err(words) && error@ == (
            ErrorView::InvalidResponse { message: words }),
        },
{
    match normalize_media_type(media_type) {
        None => Err(ProviderError::invalid("invalid multimodal media type")),
        Some(m) => match base64::normalize(data) {
            Some(d) => Ok((m, d)),
            None => Err(ProviderError::invalid("invalid base64 multimodal payload")),
        },
    }
}

/// Whether one of the parameters of a data URI, all but its first part, says
/// that its payload is base64.
pub open spec fn says_base64(parts: Seq<Seq<char>>) -> bool {
    exists|i: int|
        1 <= i < parts.len() && text::lower(#[trigger] parts[i]) == text::lower("base64"@)
}

/// What a data URI holds, or why it is refused.
pub open spec fn data_uri(uri: Seq<char>) -> Result<(Seq<char>, Seq<char>), Seq<char>> {
    match text::strip_prefix(uri, "data:"@) {
        None => Err("multimodal content must use a data URI"@),
        Some(payload) => match text::split_once(payload, ',') {
            None => Err("data URI is missing its payload"@),
            Some((metadata, data)) => {
                let parts = text::split(metadata, ';');
                match normal_media_type(parts[0]) {
                    None => Err(media_type_words()),
                    Some(m) => if !says_base64(parts) {
                        Err("multimodal data URI must be base64"@)
                    } else if base64::acceptable(data) {
                        Ok((m, base64::normalized(data)))
                    } else {
                        Err(payload_words())
                    },
                }
            },
        },
    }
}

fn any_base64(parts: &Vec<String>) -> (r: bool)
    ensures
        r == says_base64(text::texts(parts@)),
{
    let ghost all = text::texts(parts@);
    let mut i: usize = 1;
    while i < parts.len()
        invariant
            1 <= i,
            all == text::texts(parts@),
            forall|k: int| 1 <= k < i && k < all.len() ==> text::lower(#[trigger] all[k])
                != text::lower("base64"@),
        decreases parts.len() - i,
    {
        assert(all[i as int] == parts@[i as int]@);
        if text::same_ignoring_case(parts[i].as_str(), "base64") {
            return true;
        }
        i = i + 1;
    }
    false
}

fn parse_data_uri(uri: &str) -> (r: Result<(String, String), ProviderError>)
    ensures
        match r {
            Ok(pair) => data_uri(uri@) == Ok::<(Seq<char>, Seq<char>), Seq<char>>(
                (pair.0@, pair.1@),
            ),
            Err(error) => data_uri(uri@) matches Err(words) && error@ == (
            ErrorView::InvalidResponse { message: words }),
        },
{
    let payload = match text::without_prefix(uri, "data:") {
        None => {
            return Err(ProviderError::invalid("multimodal content must use a data URI"));
        },
        Some(payload) => payload,
    };
    let (metadata, data) = match text::cut_once(payload.as_str(), ',') {
        None => {
            return Err(ProviderError::invalid("data URI is missing its payload"));
        },
        Some(pair) => pair,
    };
    let parts = text::parts_of(metadata.as_str(), ';');
    proof {
        text::lemma_split_nonempty(metadata@, ';');
        assert(text::texts(parts@).len() == parts@.len());
        assert(text::texts(parts@)[0] == parts@[0]@);
    }
    match normalize_media_type(parts[0].as_str()) {
        None => Err(ProviderError::invalid("invalid multimodal media type")),
        Some(m) => {
            if !any_base64(&parts) {
                return Err(ProviderError::invalid("multimodal data URI must be base64"));
            }
            match base64::normalize(data.as_str()) {
                Some(d) => Ok((m, d)),
                None => Err(ProviderError::invalid("invalid base64 multimodal payload")),
            }
        },
    }
}

impl ProviderContentBlock {
    /// The image that a data URI holds.
    pub fn image_data_uri(uri: &str) -> (r: Result<ProviderContentBlock, ProviderError>)
        ensures
            match r {
                Ok(block) => data_uri(uri@) matches Ok((m, d)) && block@ == (BlockView::Image {
                    media_type: m,
                    data: d,
                }),
                Err(error) => data_uri(uri@) matches Err(words) && error@ == (
                ErrorView::InvalidResponse { message: words }),
            },
    {
        match parse_data_uri(uri) {
            Ok((media_type, data)) => Ok(ProviderContentBlock::Image { media_type, data }),
            Err(error) => Err(error),
        }
    }
}

proof fn lemma_trim_end(s: Seq<char>)
    ensures
        text::trim_end(s).len() <= s.len(),
        text::trim_end(s) == s.take(text::trim_end(s).len() as int),
        text::trim_end(s).len() > 0 ==> !text::is_space(text::trim_end(s).last()),
    decreases s.len(),
{
    if s.len() > 0 && text::is_space(s.last()) {
        lemma_trim_end(s.drop_last());
        assert(text::trim_end(s) =~= s.take(text::trim_end(s).len() as int));
    } else {
        assert(s =~= s.take(s.len() as int));
    }
}

proof fn lemma_trim_start(s: Seq<char>)
    ensures
        text::trim_start(s).len() <= s.len(),
        text::trim_start(s) == s.skip(s.len() - text::trim_start(s).len()),
        text::trim_start(s).len() > 0 ==> !text::is_space(text::trim_start(s)[0]),
    decreases s.len(),
{
    if s.len() > 0 && text::is_space(s[0]) {
        lemma_trim_start(s.drop_first());
        assert(text::trim_start(s) =~= s.skip(s.len() - text::trim_start(s).len()));
    } else {
        assert(s =~= s.skip(0));
    }
}

/// A media type that was brought into its normal form has it.
proof fn lemma_media_type_is_stable(s: Seq<char>)
    requires
        normal_media_type(s) is Some,
    ensures
        normal_media_type(normal_media_type(s)->0) == normal_media_type(s),
        text::lower(normal_media_type(s)->0) == normal_media_type(s)->0,
        forall|i: int|
            0 <= i < normal_media_type(s)->0.len() ==> exists|j: int|
                0 <= j < s.len() && #[trigger] normal_media_type(s)->0[i] == text::lower_char(
                    #[trigger] s[j],
                ),
{
    let front = text::trim_start(s);
    let bare = text::trim(s);
    let m = text::lower(bare);
    lemma_trim_start(s);
    lemma_trim_end(front);
    assert(bare.len() > 0);
    assert(bare[0] == front[0]);
    assert(text::trim_start(m) == m);
    assert(text::trim_end(m) == m);
    assert(text::lower(m) =~= m);
    assert forall|i: int| 0 <= i < m.len() implies exists|j: int|
        0 <= j < s.len() && #[trigger] m[i] == text::lower_char(#[trigger] s[j]) by {
        let j = s.len() - front.len() + i;
        assert(bare[i] == s[j]);
    }
}

/// A part between separators holds none, and nothing that the whole does not.
proof fn lemma_split_members(s: Seq<char>, sep: char)
    ensures
        text::split(s, sep).len() >= 1,
        forall|k: int, i: int|
            0 <= k < text::split(s, sep).len() && 0 <= i < text::split(s, sep)[k].len() ==> {
                &&& #[trigger] text::split(s, sep)[k][i] != sep
                &&& s.contains(text::split(s, sep)[k][i])
            },
    decreases s.len(),
{
    let all = text::split(s, sep);
    if s.len() > 0 {
        let front = s.drop_last();
        let before = text::split(front, sep);
        lemma_split_members(front, sep);
        assert forall|k: int, i: int| 0 <= k < all.len() && 0 <= i < all[k].len() implies (
        #[trigger] all[k][i]) != sep && s.contains(all[k][i]) by {
            if k < before.len() && i < before[k].len() {
                assert(all[k][i] == before[k][i]);
                let j = choose|j: int| 0 <= j < front.len() && front[j] == before[k][i];
                assert(s[j] == all[k][i]);
            } else {
                assert(s[s.len() - 1] == all[k][i]);
            }
        }
    }
}

/// A separator and a part behind it add that part.
proof fn lemma_split_behind(s: Seq<char>, sep: char, part: Seq<char>)
    requires
        !part.contains(sep),
    ensures
        text::split(s.push(sep) + part, sep) == text::split(s, sep).push(part),
    decreases part.len(),
{
    let whole = s.push(sep) + part;
    if part.len() == 0 {
        assert(whole =~= s.push(sep));
        assert(whole.drop_last() =~= s);
        assert(part =~= Seq::empty());
    } else {
        let shorter = part.drop_last();
        assert(!shorter.contains(sep)) by {
            if shorter.contains(sep) {
                let i = choose|i: int| 0 <= i < shorter.len() && shorter[i] == sep;
                assert(part[i] == sep);
            }
        }
        lemma_split_behind(s, sep, shorter);
        assert(whole.drop_last() =~= s.push(sep) + shorter);
        assert(part.contains(part.last()));
        let before = text::split(s.push(sep) + shorter, sep);
        assert(before.drop_last() =~= text::split(s, sep));
        assert(shorter.push(part.last()) =~= part);
    }
}

proof fn lemma_split_of_one(s: Seq<char>, sep: char)
    requires
        !s.contains(sep),
    ensures
        text::split(s, sep) == seq![s],
    decreases s.len(),
{
    if s.len() == 0 {
        assert(s =~= Seq::empty());
    } else {
        let front = s.drop_last();
        assert(!front.contains(sep)) by {
            if front.contains(sep) {
                let i = choose|i: int| 0 <= i < front.len() && front[i] == sep;
                assert(s[i] == sep);
            }
        }
        lemma_split_of_one(front, sep);
        assert(s.contains(s.last()));
        assert(front.push(s.last()) =~= s);
        assert(text::split(s, sep) =~= seq![s]);
    }
}

proof fn lemma_char_from(s: Seq<char>, c: char, from: int)
    requires
        0 <= from <= s.len(),
    ensures
        match text::char_from(s, c, from) {
            Some(i) => from <= i < s.len() && s[i] == c && forall|j: int|
                from <= j < i ==> s[j] != c,
            None => forall|j: int| from <= j < s.len() ==> s[j] != c,
        },
    decreases s.len() - from,
{
    if from < s.len() && s[from] != c {
        lemma_char_from(s, c, from + 1);
    }
}

/// The data URI of a media type and a payload.
pub open spec fn written_data_uri(media_type: Seq<char>, data: Seq<char>) -> Seq<char> {
    "data:"@ + media_type + ";base64,"@ + data
}

/// A payload under a normal media type is read out of the data URI they make.
proof fn lemma_written_data_uri(m: Seq<char>, d: Seq<char>)
    requires
        normal_media_type(m) == Some(m),
        !m.contains(','),
        !m.contains(';'),
        base64::acceptable(d),
    ensures
        data_uri(written_data_uri(m, d)) == Ok::<(Seq<char>, Seq<char>), Seq<char>>(
            (m, base64::normalized(d)),
        ),
{
    let again = written_data_uri(m, d);
    reveal_strlit("data:");
    reveal_strlit(";base64,");
    reveal_strlit("base64");
    let behind = m + ";base64,"@ + d;
    assert(again.subrange(0, 5) =~= "data:"@);
    assert(again.skip(5) =~= behind);
    let told = m.push(';') + "base64"@;
    let at = m.len() as int + 7;
    assert(text::char_from(behind, ',', 0) == Some(at)) by {
        lemma_char_from(behind, ',', 0);
        assert(behind[at] == ',');
        assert forall|i: int| 0 <= i < at implies behind[i] != ',' by {
            if i >= m.len() {
                assert(behind[i] == ";base64,"@[i - m.len()]);
            } else {
                assert(m.contains(m[i]));
            }
        }
    }
    assert(behind.take(at) =~= told);
    assert(behind.skip(at + 1) =~= d);
    assert(!"base64"@.contains(';'));
    lemma_split_of_one(m, ';');
    lemma_split_behind(m, ';', "base64"@);
    let named = text::split(told, ';');
    assert(named[0] == m && named[1] == "base64"@);
    assert(text::lower(named[1]) == text::lower("base64"@));
}

/// What is read out of a data URI is in normal form: the media type in small letters
/// and without white space, the payload not empty and written in the one way that
/// base64 has. Written as a data URI again, it is read as itself.
pub proof fn law_data_uri_reads_back(uri: Seq<char>)
    requires
        data_uri(uri) is Ok,
    ensures
        ({
            let (m, d) = data_uri(uri)->Ok_0;
            &&& text::lower(m) == m
            &&& forall|i: int| 0 <= i < m.len() ==> !unfit_for_media_type(#[trigger] m[i])
            &&& d.len() > 0
            &&& base64::acceptable(d)
            &&& base64::normalized(d) == d
            &&& data_uri(written_data_uri(m, d)) == data_uri(uri)
        }),
{
    let (m, d) = data_uri(uri)->Ok_0;
    let payload = text::strip_prefix(uri, "data:"@)->0;
    let (metadata, data) = text::split_once(payload, ',')->0;
    let parts = text::split(metadata, ';');
    lemma_char_from(payload, ',', 0);
    lemma_split_members(metadata, ';');
    lemma_media_type_is_stable(parts[0]);
    base64::law_normal_form_is_stable(data);
    let first = parts[0];
    assert forall|i: int| 0 <= i < m.len() implies m[i] != ',' && m[i] != ';' by {
        let j = choose|j: int|
            0 <= j < first.len() && m[i] == text::lower_char(#[trigger] first[j]);
        assert(text::split(metadata, ';')[0][j] == first[j]);
        assert(metadata.contains(first[j]));
        let k = choose|k: int| 0 <= k < metadata.len() && metadata[k] == first[j];
        assert(payload[k] == first[j]);
    }
    lemma_written_data_uri(m, d);
}

/// A content block in normal form.
pub enum NormalizedContentBlock {
    Text(String),
    Image { media_type: String, data: String },
    Audio { media_type: String, data: String },
    File { media_type: String, data: String },
    Placeholder { kind: String },
}

#[verifier::ext_equal]
pub enum NormalView {
    Text(Seq<char>),
    Image { media_type: Seq<char>, data: Seq<char> },
    Audio { media_type: Seq<char>, data: Seq<char> },
    File { media_type: Seq<char>, data: Seq<char> },
    Placeholder { kind: Seq<char> },
}

impl View for NormalizedContentBlock {
    type V = NormalView;

    open spec fn view(&self) -> NormalView {
        match *self {
            NormalizedContentBlock::Text(t) => NormalView::Text(t@),
            NormalizedContentBlock::Image { media_type, data } => NormalView::Image {
                media_type: media_type@,
                data: data@,
            },
            NormalizedContentBlock::Audio { media_type, data } => NormalView::Audio {
                media_type: media_type@,
                data: data@,
            },
            NormalizedContentBlock::File { media_type, data } => NormalView::File {
                media_type: media_type@,
                data: data@,
            },
            NormalizedContentBlock::Placeholder { kind } => NormalView::Placeholder {
                kind: kind@,
            },
        }
    }
}

/// The normal form of a block, or why it has none.
pub open spec fn normal_block(block: BlockView) -> Result<NormalView, Seq<char>> {
    match block {
        BlockView::Text(t) => Ok(NormalView::Text(t)),
        BlockView::Image { media_type, data } => match normal_data(media_type, data) {
            Ok((m, d)) => Ok(NormalView::Image { media_type: m, data: d }),
            Err(words) => Err(words),
        },
        BlockView::Audio { media_type, data } => match normal_data(media_type, data) {
            Ok((m, d)) => Ok(NormalView::Audio { media_type: m, data: d }),
            Err(words) => Err(words),
        },
        BlockView::File { media_type, data } => match normal_data(media_type, data) {
            Ok((m, d)) => Ok(NormalView::File { media_type: m, data: d }),
            Err(words) => Err(words),
        },
        BlockView::Unsupported { kind } => Ok(
            NormalView::Placeholder { kind: text::lower(text::trim(kind)) },
        ),
    }
}

pub fn normalize_block(block: &ProviderContentBlock) -> (r: Result<
    NormalizedContentBlock,
    ProviderError,
>)
    ensures
        match r {
            Ok(normal) => normal_block(block@) == Ok::<NormalView, Seq<char>>(normal@),
            Err(error) => normal_block(block@) matches Err(words) && error@ == (
            ErrorView::InvalidResponse { message: words }),
        },
{
    match block {
        ProviderContentBlock::Text(t) => Ok(NormalizedContentBlock::Text(t.clone())),
        ProviderContentBlock::Image { media_type, data } => match normalize_data(
            media_type.as_str(),
            data.as_str(),
        ) {
            Ok((media_type, data)) => Ok(NormalizedContentBlock::Image { media_type, data }),
            Err(error) => Err(error),
        },
        ProviderContentBlock::Audio { media_type, data } => match normalize_data(
            media_type.as_str(),
            data.as_str(),
        ) {
            Ok((media_type, data)) => Ok(NormalizedContentBlock::Audio { media_type, data }),
            Err(error) => Err(error),
        },
        ProviderContentBlock::File { media_type, data } => match normalize_data(
            media_type.as_str(),
            data.as_str(),
        ) {
            Ok((media_type, data)) => Ok(NormalizedContentBlock::File { media_type, data }),
            Err(error) => Err(error),
        },
        ProviderContentBlock::Unsupported { kind } => {
            let trimmed = text::trimmed(kind.as_str());
            Ok(NormalizedContentBlock::Placeholder { kind: text::lowered(trimmed.as_str()) })
        },
    }
}

/// The name of a block's kind.
pub open spec fn kind_of(block: BlockView) -> Seq<char> {
    match block {
        BlockView::Text(_) => "text"@,
        BlockView::Image { .. } => "image"@,
        BlockView::Audio { .. } => "audio"@,
        BlockView::File { .. } => "file"@,
        BlockView::Unsupported { .. } => "unsupported"@,
    }
}

fn block_kind(block: &ProviderContentBlock) -> (r: &'static str)
    ensures
        r@ == kind_of(block@),
{
    match block {
        ProviderContentBlock::Text(_) => "text",
        ProviderContentBlock::Image { .. } => "image",
        ProviderContentBlock::Audio { .. } => "audio",
        ProviderContentBlock::File { .. } => "file",
        ProviderContentBlock::Unsupported { .. } => "unsupported",
    }
}

/// A block as a request carries it; one that has no normal form leaves its kind.
pub open spec fn request_block(block: BlockView) -> NormalView {
    match normal_block(block) {
        Ok(normal) => normal,
        Err(_) => NormalView::Placeholder { kind: kind_of(block) },
    }
}

fn normalized_for_request(block: &ProviderContentBlock) -> (r: NormalizedContentBlock)
    ensures
        r@ == request_block(block@),
{
    match normalize_block(block) {
        Ok(normal) => normal,
        Err(_) => NormalizedContentBlock::Placeholder { kind: block_kind(block).to_owned() },
    }
}

/// The most characters of a tool call's name and id in an error.
pub const LABEL_CHARS: usize = 64;

/// How an error speaks of a tool call.
pub open spec fn call_identity(call: CallView, position: nat) -> Seq<char> {
    let id = text::first_chars(call.id, LABEL_CHARS as int);
    let name = text::first_chars(call.name, LABEL_CHARS as int);
    let place = "tool call at message position "@ + text::decimal(position);
    if name.len() == 0 && id.len() == 0 {
        place
    } else if id.len() == 0 {
        place + " ("@ + name + ")"@
    } else if name.len() == 0 {
        place + " ("@ + id + ")"@
    } else {
        place + " ("@ + name + "/"@ + id + ")"@
    }
}

fn tool_call_identity(call: &ProviderToolCall, position: usize) -> (r: String)
    ensures
        r@ == call_identity(call@, position as nat),
{
    let id = text::first_chars_of(call.id.as_str(), LABEL_CHARS);
    let name = text::first_chars_of(call.name.as_str(), LABEL_CHARS);
    let mut out = "tool call at message position ".to_owned();
    out.append(text::decimal_of(position as u64).as_str());
    let no_id = id.as_str().is_empty();
    let no_name = name.as_str().is_empty();
    if no_name && no_id {
        return out;
    }
    out.append(" (");
    if no_id {
        out.append(name.as_str());
    } else if no_name {
        out.append(id.as_str());
    } else {
        out.append(name.as_str());
        out.append("/");
        out.append(id.as_str());
    }
    out.append(")");
    out
}

/// What is wrong with arguments that were read so, if anything.
pub open spec fn arguments_fault(
    identity: Seq<char>,
    arguments: Result<Tree, Seq<char>>,
) -> Option<Seq<char>> {
    match arguments {
        Err(error) => Some(identity + " arguments are invalid JSON: "@ + error),
        Ok(tree) => if tree is Object {
            None
        } else {
            Some(identity + " arguments must be a JSON object"@)
        },
    }
}

/// Whether the arguments of a tool call are a JSON object.
pub fn validate_tool_call_arguments(call: &ProviderToolCall, position: usize) -> (r: Result<
    (),
    ProviderError,
>)
    ensures
        match arguments_fault(
            call_identity(call@, position as nat),
            json::parsed(call@.arguments),
        ) {
            None => r is Ok,
            Some(words) => r matches Err(error) && error@ == (ErrorView::InvalidResponse {
                message: words,
            }),
        },
{
    let read = json::parse(call.arguments.as_str());
    match check_arguments(tool_call_identity(call, position), &read) {
        None => Ok(()),
        Some(message) => Err(ProviderError::InvalidResponse { message }),
    }
}

/// What is wrong with arguments that were read so.
pub fn check_arguments(identity: String, read: &Result<Json, String>) -> (r: Option<String>)
    ensures
        message::opt_text(r) == arguments_fault(
            identity@,
            match read {
                Ok(json) => Ok(json@),
                Err(error) => Err(error@),
            },
        ),
{
    match read {
        Err(error) => {
            let mut out = identity;
            out.append(" arguments are invalid JSON: ");
            out.append(error.as_str());
            Some(out)
        },
        Ok(json) => if json.is_object() {
            None
        } else {
            let mut out = identity;
            out.append(" arguments must be a JSON object");
            Some(out)
        },
    }
}

/// The first fault among the tool calls of a message, from `from` on.
pub open spec fn calls_fault(calls: Seq<CallView>, position: nat, from: int) -> Option<Seq<char>>
    decreases calls.len() - from,
{
    if from < 0 || from >= calls.len() {
        None
    } else {
        match arguments_fault(
            call_identity(calls[from], position),
            json::parsed(calls[from].arguments),
        ) {
            Some(words) => Some(words),
            None => calls_fault(calls, position, from + 1),
        }
    }
}

/// The first block without a normal form, from `from` on.
pub open spec fn blocks_fault(blocks: Seq<BlockView>, from: int) -> Option<Seq<char>>
    decreases blocks.len() - from,
{
    if from < 0 || from >= blocks.len() {
        None
    } else {
        match normal_block(blocks[from]) {
            Err(words) => Some(words),
            Ok(_) => blocks_fault(blocks, from + 1),
        }
    }
}

/// What is wrong with a message: its tool calls first, then its blocks.
pub open spec fn message_fault(message: MessageView, position: nat) -> Option<Seq<char>> {
    match calls_fault(message.tool_calls, position, 0) {
        Some(words) => Some(words),
        None => blocks_fault(message.content_blocks, 0),
    }
}

/// What is wrong with messages: the first fault of the first faulty one.
pub open spec fn messages_fault(messages: Seq<MessageView>, from: int) -> Option<Seq<char>>
    decreases messages.len() - from,
{
    if from < 0 || from >= messages.len() {
        None
    } else {
        match message_fault(messages[from], from as nat) {
            Some(words) => Some(words),
            None => messages_fault(messages, from + 1),
        }
    }
}

fn check_calls(calls: &Vec<ProviderToolCall>, position: usize) -> (r: Result<(), ProviderError>)
    ensures
        match calls_fault(message::call_views(calls@), position as nat, 0) {
            None => r is Ok,
            Some(words) => r matches Err(error) && error@ == (ErrorView::InvalidResponse {
                message: words,
            }),
        },
{
    let ghost all = message::call_views(calls@);
    let ghost whole = calls_fault(all, position as nat, 0);
    let mut i: usize = 0;
    while i < calls.len()
        invariant
            i <= calls.len(),
            all == message::call_views(calls@),
            whole == calls_fault(all, position as nat, i as int),
            whole == calls_fault(all, position as nat, 0),
        decreases calls.len() - i,
    {
        assert(all[i as int] == calls@[i as int]@);
        match validate_tool_call_arguments(&calls[i], position) {
            Err(error) => {
                return Err(error);
            },
            Ok(_) => {},
        }
        i = i + 1;
    }
    Ok(())
}

fn check_blocks(blocks: &Vec<ProviderContentBlock>) -> (r: Result<(), ProviderError>)
    ensures
        match blocks_fault(message::block_views(blocks@), 0) {
            None => r is Ok,
            Some(words) => r matches Err(error) && error@ == (ErrorView::InvalidResponse {
                message: words,
            }),
        },
{
    let ghost all = message::block_views(blocks@);
    let ghost whole = blocks_fault(all, 0);
    let mut i: usize = 0;
    while i < blocks.len()
        invariant
            i <= blocks.len(),
            all == message::block_views(blocks@),
            whole == blocks_fault(all, i as int),
            whole == blocks_fault(all, 0),
        decreases blocks.len() - i,
    {
        assert(all[i as int] == blocks@[i as int]@);
        match normalize_block(&blocks[i]) {
            Err(error) => {
                return Err(error);
            },
            Ok(_) => {},
        }
        i = i + 1;
    }
    Ok(())
}

/// Whether messages can go into a request.
pub fn normalize_messages(messages: &Vec<ProviderMessage>) -> (r: Result<(), ProviderError>)
    ensures
        match messages_fault(message::views(messages@), 0) {
            None => r is Ok,
            Some(words) => r matches Err(error) && error@ == (ErrorView::InvalidResponse {
                message: words,
            }),
        },
{
    let ghost all = message::views(messages@);
    let ghost whole = messages_fault(all, 0);
    let mut i: usize = 0;
    while i < messages.len()
        invariant
            i <= messages.len(),
            all == message::views(messages@),
            whole == messages_fault(all, i as int),
            whole == messages_fault(all, 0),
        decreases messages.len() - i,
    {
        assert(all[i as int] == messages@[i as int]@);
        match check_calls(&messages[i].tool_calls, i) {
            Err(error) => {
                return Err(error);
            },
            Ok(_) => {},
        }
        match check_blocks(&messages[i].content_blocks) {
            Err(error) => {
                return Err(error);
            },
            Ok(_) => {},
        }
        i = i + 1;
    }
    Ok(())
}

/// A text block of either wire format.
pub open spec fn text_block(s: Seq<char>) -> Tree {
    json::empty_object().with("type"@, Tree::Text("text"@)).with("text"@, Tree::Text(s))
}

fn text_json(s: &str) -> (r: Json)
    ensures
        r@ == text_block(s@),
{
    Json::object().with("type", Json::string("text")).with("text", Json::string(s))
}

/// What stands for a file whose content no wire format carries.
pub open spec fn file_words(media_type: Seq<char>, data: Seq<char>) -> Seq<char> {
    "[file content omitted: "@ + media_type + "; base64-bytes="@ + text::decimal(
        text::byte_len(data),
    ) + "]"@
}

fn file_text(media_type: &str, data: &str) -> (r: String)
    ensures
        r@ == file_words(media_type@, data@),
{
    let mut out = "[file content omitted: ".to_owned();
    out.append(media_type);
    out.append("; base64-bytes=");
    out.append(text::decimal_of(text::byte_count(data) as u64).as_str());
    out.append("]");
    out
}

pub open spec fn placeholder_words(kind: Seq<char>) -> Seq<char> {
    "["@ + kind + " content unavailable offline]"@
}

fn placeholder_text(kind: &str) -> (r: String)
    ensures
        r@ == placeholder_words(kind@),
{
    let mut out = "[".to_owned();
    out.append(kind);
    out.append(" content unavailable offline]");
    out
}

/// A block in the chat format.
pub open spec fn openai_block(block: NormalView) -> Tree {
    match block {
        NormalView::Text(t) => text_block(t),
        NormalView::Image { media_type, data } => json::empty_object().with(
            "type"@,
            Tree::Text("image_url"@),
        ).with(
            "image_url"@,
            json::empty_object().with(
                "url"@,
                Tree::Text("data:"@ + media_type + ";base64,"@ + data),
            ),
        ),
        NormalView::Audio { media_type, data } => json::empty_object().with(
            "type"@,
            Tree::Text("input_audio"@),
        ).with(
            "input_audio"@,
            json::empty_object().with(
                "format"@,
                Tree::Text(text::last_part(media_type, '/')),
            ).with("data"@, Tree::Text(data)),
        ),
        NormalView::File { media_type, data } => text_block(file_words(media_type, data)),
        NormalView::Placeholder { kind } => text_block(placeholder_words(kind)),
    }
}

fn openai_json(block: &NormalizedContentBlock) -> (r: Json)
    ensures
        r@ == openai_block(block@),
{
    match block {
        NormalizedContentBlock::Text(t) => text_json(t.as_str()),
        NormalizedContentBlock::Image { media_type, data } => {
            let mut url = "data:".to_owned();
            url.append(media_type.as_str());
            url.append(";base64,");
            url.append(data.as_str());
            let image = Json::object().with("url", Json::string(url.as_str()));
            Json::object().with("type", Json::string("image_url")).with("image_url", image)
        },
        NormalizedContentBlock::Audio { media_type, data } => {
            let format = text::after_last(media_type.as_str(), '/');
            let audio = Json::object().with("format", Json::string(format.as_str())).with(
                "data",
                Json::string(data.as_str()),
            );
            Json::object().with("type", Json::string("input_audio")).with("input_audio", audio)
        },
        NormalizedContentBlock::File { media_type, data } => text_json(
            file_text(media_type.as_str(), data.as_str()).as_str(),
        ),
        NormalizedContentBlock::Placeholder { kind } => text_json(
            placeholder_text(kind.as_str()).as_str(),
        ),
    }
}

/// A block in the messages format, which carries no audio.
pub open spec fn anthropic_block(block: NormalView) -> Tree {
    match block {
        NormalView::Text(t) => text_block(t),
        NormalView::Image { media_type, data } => json::empty_object().with(
            "type"@,
            Tree::Text("image"@),
        ).with(
            "source"@,
            json::empty_object().with("type"@, Tree::Text("base64"@)).with(
                "media_type"@,
                Tree::Text(media_type),
            ).with("data"@, Tree::Text(data)),
        ),
        NormalView::Audio { media_type, .. } => text_block(
            "[audio "@ + media_type + " unavailable offline]"@,
        ),
        NormalView::File { media_type, data } => text_block(file_words(media_type, data)),
        NormalView::Placeholder { kind } => text_block(placeholder_words(kind)),
    }
}

fn anthropic_json(block: &NormalizedContentBlock) -> (r: Json)
    ensures
        r@ == anthropic_block(block@),
{
    match block {
        NormalizedContentBlock::Text(t) => text_json(t.as_str()),
        NormalizedContentBlock::Image { media_type, data } => {
            let source = Json::object().with("type", Json::string("base64")).with(
                "media_type",
                Json::string(media_type.as_str()),
            ).with("data", Json::string(data.as_str()));
            Json::object().with("type", Json::string("image")).with("source", source)
        },
        NormalizedContentBlock::Audio { media_type, .. } => {
            let mut words = "[audio ".to_owned();
            words.append(media_type.as_str());
            words.append(" unavailable offline]");
            text_json(words.as_str())
        },
        NormalizedContentBlock::File { media_type, data } => text_json(
            file_text(media_type.as_str(), data.as_str()).as_str(),
        ),
        NormalizedContentBlock::Placeholder { kind } => text_json(
            placeholder_text(kind.as_str()).as_str(),
        ),
    }
}

/// All blocks in the chat format.
pub open spec fn openai_blocks(blocks: Seq<BlockView>) -> Seq<Tree> {
    blocks.map_values(|b: BlockView| openai_block(request_block(b)))
}

/// All blocks in the messages format.
pub open spec fn anthropic_blocks(blocks: Seq<BlockView>) -> Seq<Tree> {
    blocks.map_values(|b: BlockView| anthropic_block(request_block(b)))
}

/// The text of a message as a block, where there is any.
pub open spec fn leading_text(content: Seq<char>) -> Seq<Tree> {
    if content.len() == 0 {
        Seq::empty()
    } else {
        seq![text_block(content)]
    }
}

fn leading(content: &str) -> (r: Vec<Json>)
    ensures
        json::trees(r@) == leading_text(content@),
{
    let mut out: Vec<Json> = Vec::new();
    if !content.is_empty() {
        out.push(text_json(content));
    }
    assert(json::trees(out@) =~= leading_text(content@));
    out
}

/// The content of a message in the chat format.
pub open spec fn openai_content(message: MessageView) -> Tree {
    if message.content_blocks.len() == 0 {
        Tree::Text(message.content)
    } else {
        Tree::Array(leading_text(message.content) + openai_blocks(message.content_blocks))
    }
}

/// The content of a message in the chat format can be read back.
pub(crate) proof fn lemma_content_reads_back(message: MessageView)
    ensures
        json::keeps(openai_content(message), 3),
{
    broadcast use json::lemma_keeps_with;

    let head = leading_text(message.content);
    let blocks = openai_blocks(message.content_blocks);
    let all = head + blocks;
    assert forall|i: int| 0 <= i < all.len() implies json::keeps(#[trigger] all[i], 2) by {
        if i < head.len() {
            assert(all[i] == text_block(message.content));
        } else {
            assert(all[i] == openai_block(request_block(message.content_blocks[i - head.len()])));
        }
    }
}

pub fn openai_message_content(message: &ProviderMessage) -> (r: Json)
    ensures
        r@ == openai_content(message@),
{
    broadcast use json::lemma_json_view;

    if message.content_blocks.len() == 0 {
        return Json::string(message.content.as_str());
    }
    let blocks = &message.content_blocks;
    let ghost head = leading_text(message@.content);
    let ghost all = openai_blocks(message@.content_blocks);
    let mut content = leading(message.content.as_str());
    let mut i: usize = 0;
    assert(json::trees(content@) =~= head + all.take(0));
    while i < blocks.len()
        invariant
            i <= blocks.len(),
            all == openai_blocks(message::block_views(blocks@)),
            json::trees(content@) == head + all.take(i as int),
        decreases blocks.len() - i,
    {
        let block = openai_json(&normalized_for_request(&blocks[i]));
        let ghost done = content@;
        content.push(block);
        assert(json::trees(content@) =~= json::trees(done).push(block@));
        assert(head + all.take(i + 1) =~= (head + all.take(i as int)).push(all[i as int]));
        i = i + 1;
    }
    assert(all.take(all.len() as int) =~= all);
    Json::Array(content)
}

/// The content of a message in the messages format, as blocks.
pub open spec fn anthropic_values(message: MessageView) -> Seq<Tree> {
    leading_text(message.content) + anthropic_blocks(message.content_blocks)
}

pub fn anthropic_content_values(message: &ProviderMessage) -> (r: Vec<Json>)
    ensures
        json::trees(r@) == anthropic_values(message@),
{
    let blocks = &message.content_blocks;
    let ghost head = leading_text(message@.content);
    let ghost all = anthropic_blocks(message@.content_blocks);
    let mut content = leading(message.content.as_str());
    let mut i: usize = 0;
    assert(json::trees(content@) =~= head + all.take(0));
    while i < blocks.len()
        invariant
            i <= blocks.len(),
            all == anthropic_blocks(message::block_views(blocks@)),
            json::trees(content@) == head + all.take(i as int),
        decreases blocks.len() - i,
    {
        let block = anthropic_json(&normalized_for_request(&blocks[i]));
        let ghost done = content@;
        content.push(block);
        assert(json::trees(content@) =~= json::trees(done).push(block@));
        assert(head + all.take(i + 1) =~= (head + all.take(i as int)).push(all[i as int]));
        i = i + 1;
    }
    assert(all.take(all.len() as int) =~= all);
    content
}

/// The blocks of a message in the messages format can be read back.
pub(crate) proof fn lemma_values_read_back(message: MessageView)
    ensures
        forall|i: int|
            0 <= i < anthropic_values(message).len() ==> json::keeps(
                #[trigger] anthropic_values(message)[i],
                2,
            ),
{
    broadcast use json::lemma_keeps_with;

    let head = leading_text(message.content);
    let all = anthropic_values(message);
    assert forall|i: int| 0 <= i < all.len() implies json::keeps(#[trigger] all[i], 2) by {
        if i < head.len() {
            assert(all[i] == text_block(message.content));
        } else {
            assert(all[i] == anthropic_block(
                request_block(message.content_blocks[i - head.len()]),
            ));
        }
    }
}

/// The content of a message in the messages format.
pub open spec fn anthropic_content(message: MessageView) -> Tree {
    if message.content_blocks.len() == 0 {
        Tree::Text(message.content)
    } else {
        Tree::Array(anthropic_values(message))
    }
}

pub fn anthropic_message_content(message: &ProviderMessage) -> (r: Json)
    ensures
        r@ == anthropic_content(message@),
{
    broadcast use json::lemma_json_view;

    if message.content_blocks.len() == 0 {
        Json::string(message.content.as_str())
    } else {
        Json::Array(anthropic_content_values(message))
    }
}

/// The canonical form of a media type with a payload.
pub open spec fn canonical_data(kind: Seq<char>, media_type: Seq<char>, data: Seq<char>) -> Seq<
    char,
> {
    canonical::frame(kind) + canonical::frame(media_type) + canonical::frame(data)
}

/// The raw content of a block, for one that has no normal form.
pub open spec fn raw_content(block: BlockView) -> Seq<char> {
    match block {
        BlockView::Text(t) => t,
        BlockView::Unsupported { kind } => kind,
        BlockView::Image { media_type, data } => media_type.push('\0') + data,
        BlockView::Audio { media_type, data } => media_type.push('\0') + data,
        BlockView::File { media_type, data } => media_type.push('\0') + data,
    }
}

/// The canonical form of a block: of its normal form where it has one, else of
/// its kind and a hash of what it holds.
pub open spec fn canonical_block(block: BlockView) -> Seq<char> {
    match normal_block(block) {
        Ok(NormalView::Text(t)) => canonical::frame("text"@) + canonical::frame(t),
        Ok(NormalView::Image { media_type, data }) => canonical_data(
            "image"@,
            media_type,
            data,
        ),
        Ok(NormalView::Audio { media_type, data }) => canonical_data(
            "audio"@,
            media_type,
            data,
        ),
        Ok(NormalView::File { media_type, data }) => canonical_data("file"@, media_type, data),
        Ok(NormalView::Placeholder { kind }) => canonical::frame("placeholder"@)
            + canonical::frame(kind),
        Err(_) => canonical::frame(kind_of(block)) + canonical::frame(
            "invalid:"@ + text::hex(text::big_endian(canonical::text_hash(raw_content(block)))),
        ),
    }
}

pub open spec fn canonical_blocks(blocks: Seq<BlockView>) -> Seq<char>
    decreases blocks.len(),
{
    if blocks.len() == 0 {
        Seq::empty()
    } else {
        canonical_blocks(blocks.drop_last()) + canonical_block(blocks.last())
    }
}

pub open spec fn canonical_calls(calls: Seq<CallView>) -> Seq<char>
    decreases calls.len(),
{
    if calls.len() == 0 {
        Seq::empty()
    } else {
        let c = calls.last();
        canonical_calls(calls.drop_last()) + canonical::frame(c.id) + canonical::frame(c.name)
            + canonical::frame(c.arguments)
    }
}

/// A text that may be missing, as its own or as nothing.
pub open spec fn or_empty(s: Option<Seq<char>>) -> Seq<char> {
    match s {
        Some(t) => t,
        None => Seq::empty(),
    }
}

pub open spec fn canonical_message(m: MessageView) -> Seq<char> {
    canonical::frame(m.role) + canonical::frame(m.content) + canonical::frame(or_empty(m.name))
        + canonical::frame(or_empty(m.tool_call_id)) + canonical::frame(
        text::decimal(m.tool_calls.len()),
    ) + canonical_calls(m.tool_calls) + canonical::frame(text::decimal(m.content_blocks.len()))
        + canonical_blocks(m.content_blocks)
}

/// The canonical form of messages.
pub open spec fn canonical_history(messages: Seq<MessageView>) -> Seq<char>
    decreases messages.len(),
{
    if messages.len() == 0 {
        Seq::empty()
    } else {
        canonical_history(messages.drop_last()) + canonical_message(messages.last())
    }
}

fn push_data(output: &mut String, kind: &str, media_type: &str, data: &str)
    ensures
        final(output)@ == old(output)@ + canonical_data(kind@, media_type@, data@),
{
    let ghost start = output@;
    canonical::canonical_push(output, kind);
    canonical::canonical_push(output, media_type);
    canonical::canonical_push(output, data);
    assert(output@ =~= start + canonical_data(kind@, media_type@, data@));
}

fn raw_text(block: &ProviderContentBlock) -> (r: String)
    ensures
        r@ == raw_content(block@),
{
    match block {
        ProviderContentBlock::Text(t) => t.clone(),
        ProviderContentBlock::Unsupported { kind } => kind.clone(),
        ProviderContentBlock::Image { media_type, data } => {
            let mut raw = media_type.clone();
            raw.push('\0');
            raw.append(data.as_str());
            raw
        },
        ProviderContentBlock::Audio { media_type, data } => {
            let mut raw = media_type.clone();
            raw.push('\0');
            raw.append(data.as_str());
            raw
        },
        ProviderContentBlock::File { media_type, data } => {
            let mut raw = media_type.clone();
            raw.push('\0');
            raw.append(data.as_str());
            raw
        },
    }
}

fn push_block(output: &mut String, block: &ProviderContentBlock)
    ensures
        final(output)@ == old(output)@ + canonical_block(block@),
{
    let ghost start = output@;
    match normalize_block(block) {
        Ok(NormalizedContentBlock::Text(t)) => {
            canonical::canonical_push(output, "text");
            canonical::canonical_push(output, t.as_str());
        },
        Ok(NormalizedContentBlock::Image { media_type, data }) => {
            push_data(output, "image", media_type.as_str(), data.as_str());
        },
        Ok(NormalizedContentBlock::Audio { media_type, data }) => {
            push_data(output, "audio", media_type.as_str(), data.as_str());
        },
        Ok(NormalizedContentBlock::File { media_type, data }) => {
            push_data(output, "file", media_type.as_str(), data.as_str());
        },
        Ok(NormalizedContentBlock::Placeholder { kind }) => {
            canonical::canonical_push(output, "placeholder");
            canonical::canonical_push(output, kind.as_str());
        },
        Err(_) => {
            canonical::canonical_push(output, block_kind(block));
            let mut mark = "invalid:".to_owned();
            let hash: u64 = canonical::hash_of(raw_text(block).as_str());
            mark.append(text::hex16_of(hash).as_str());
            canonical::canonical_push(output, mark.as_str());
        },
    }
    assert(output@ =~= start + canonical_block(block@));
}

fn opt_or_empty(s: &Option<String>) -> (r: &str)
    ensures
        r@ == or_empty(message::opt_text(*s)),
{
    match s {
        Some(t) => t.as_str(),
        None => {
            proof {
                reveal_strlit("");
                assert(""@ =~= Seq::<char>::empty());
            }
            ""
        },
    }
}

fn push_calls(output: &mut String, calls: &Vec<ProviderToolCall>)
    ensures
        final(output)@ == old(output)@ + canonical_calls(message::call_views(calls@)),
{
    let ghost start = output@;
    let ghost all = message::call_views(calls@);
    let mut i: usize = 0;
    assert(output@ =~= start + canonical_calls(all.take(0)));
    while i < calls.len()
        invariant
            i <= calls.len(),
            all == message::call_views(calls@),
            output@ == start + canonical_calls(all.take(i as int)),
        decreases calls.len() - i,
    {
        let call = &calls[i];
        canonical::canonical_push(output, call.id.as_str());
        canonical::canonical_push(output, call.name.as_str());
        canonical::canonical_push(output, call.arguments.as_str());
        assert(all.take(i + 1).drop_last() =~= all.take(i as int));
        assert(all.take(i + 1).last() == call@);
        assert(output@ =~= start + canonical_calls(all.take(i + 1)));
        i = i + 1;
    }
    assert(all.take(all.len() as int) =~= all);
}

fn push_blocks(output: &mut String, blocks: &Vec<ProviderContentBlock>)
    ensures
        final(output)@ == old(output)@ + canonical_blocks(message::block_views(blocks@)),
{
    let ghost start = output@;
    let ghost all = message::block_views(blocks@);
    let mut i: usize = 0;
    assert(output@ =~= start + canonical_blocks(all.take(0)));
    while i < blocks.len()
        invariant
            i <= blocks.len(),
            all == message::block_views(blocks@),
            output@ == start + canonical_blocks(all.take(i as int)),
        decreases blocks.len() - i,
    {
        push_block(output, &blocks[i]);
        assert(all.take(i + 1).drop_last() =~= all.take(i as int));
        assert(all.take(i + 1).last() == blocks@[i as int]@);
        assert(output@ =~= start + canonical_blocks(all.take(i + 1)));
        i = i + 1;
    }
    assert(all.take(all.len() as int) =~= all);
}

/// What is added twice behind a text is added at once.
proof fn lemma_added(start: Seq<char>, first: Seq<char>, second: Seq<char>)
    ensures
        (start + first) + second == start + (first + second),
{
    assert((start + first) + second =~= start + (first + second));
}

fn push_message(output: &mut String, m: &ProviderMessage)
    ensures
        final(output)@ == old(output)@ + canonical_message(m@),
{
    let ghost start = output@;
    let ghost v = m@;
    canonical::canonical_push(output, m.role.as_str());
    canonical::canonical_push(output, m.content.as_str());
    canonical::canonical_push(output, opt_or_empty(&m.name));
    canonical::canonical_push(output, opt_or_empty(&m.tool_call_id));
    canonical::canonical_push(output, text::decimal_of(m.tool_calls.len() as u64).as_str());
    push_calls(output, &m.tool_calls);
    canonical::canonical_push(output, text::decimal_of(m.content_blocks.len() as u64).as_str());
    push_blocks(output, &m.content_blocks);
    proof {
        let a = canonical::frame(v.role);
        let b = a + canonical::frame(v.content);
        let c = b + canonical::frame(or_empty(v.name));
        let d = c + canonical::frame(or_empty(v.tool_call_id));
        let e = d + canonical::frame(text::decimal(v.tool_calls.len()));
        let f = e + canonical_calls(v.tool_calls);
        let g = f + canonical::frame(text::decimal(v.content_blocks.len()));
        lemma_added(start, a, canonical::frame(v.content));
        lemma_added(start, b, canonical::frame(or_empty(v.name)));
        lemma_added(start, c, canonical::frame(or_empty(v.tool_call_id)));
        lemma_added(start, d, canonical::frame(text::decimal(v.tool_calls.len())));
        lemma_added(start, e, canonical_calls(v.tool_calls));
        lemma_added(start, f, canonical::frame(text::decimal(v.content_blocks.len())));
        lemma_added(start, g, canonical_blocks(v.content_blocks));
    }
}

/// Messages in canonical form.
pub fn canonical_messages(messages: &Vec<ProviderMessage>) -> (r: String)
    ensures
        r@ == canonical_history(message::views(messages@)),
{
    let ghost all = message::views(messages@);
    let mut output = String::new();
    let mut i: usize = 0;
    assert(output@ =~= canonical_history(all.take(0)));
    while i < messages.len()
        invariant
            i <= messages.len(),
            all == message::views(messages@),
            output@ == canonical_history(all.take(i as int)),
        decreases messages.len() - i,
    {
        push_message(&mut output, &messages[i]);
        assert(all.take(i + 1).drop_last() =~= all.take(i as int));
        assert(all.take(i + 1).last() == messages@[i as int]@);
        i = i + 1;
    }
    assert(all.take(all.len() as int) =~= all);
    output
}

} // verus!
