//! URLs as `reqwest::Url` reads and writes them.
use vstd::prelude::*;
use vstd::string::*;

use vstd::utf8::encode_utf8;

use crate::provider::message;
use crate::text;

verus! {

/// The parts of a URL that the library looks at. The query stands decoded, as
/// its pairs of key and value. Of the text that the URL is written as there are the
/// bytes of the whole and of its query.
#[derive(Debug)]
pub struct UrlParts {
    pub scheme: String,
    pub host: Option<String>,
    pub username: String,
    pub password: Option<String>,
    pub pairs: Vec<(String, String)>,
    pub fragment: Option<String>,
    pub written_bytes: usize,
    pub query_bytes: Option<usize>,
}

#[verifier::ext_equal]
pub struct UrlView {
    pub scheme: Seq<char>,
    pub host: Option<Seq<char>>,
    pub username: Seq<char>,
    pub password: Option<Seq<char>>,
    pub pairs: Seq<(Seq<char>, Seq<char>)>,
    pub fragment: Option<Seq<char>>,
    pub written_bytes: usize,
    pub query_bytes: Option<usize>,
}

pub open spec fn pair_views(pairs: Seq<(String, String)>) -> Seq<(Seq<char>, Seq<char>)> {
    pairs.map_values(|p: (String, String)| (p.0@, p.1@))
}

impl View for UrlParts {
    type V = UrlView;

    open spec fn view(&self) -> UrlView {
        UrlView {
            scheme: self.scheme@,
            host: message::opt_text(self.host),
            username: self.username@,
            password: message::opt_text(self.password),
            pairs: pair_views(self.pairs@),
            fragment: message::opt_text(self.fragment),
            written_bytes: self.written_bytes,
            query_bytes: self.query_bytes,
        }
    }
}

/// The parts that `reqwest::Url::parse` reads out of a text, or the message it
/// fails with.
pub uninterp spec fn parsed_url(text: Seq<char>) -> Result<UrlView, Seq<char>>;

/// `reqwest::Url::parse`, with the URL's scheme, host, user name, password,
/// decoded query pairs and fragment, and the bytes of the URL as it is written and of
/// its query. What it reads, or the words of its error, are named.
#[verifier::external_body]
pub(crate) fn parse(text: &str) -> (r: Result<UrlParts, String>)
    ensures
        match r {
            Ok(parts) => parsed_url(text@) == Ok::<UrlView, Seq<char>>(parts@),
            Err(message) => parsed_url(text@) == Err::<UrlView, Seq<char>>(message@),
        },
{
    reqwest::Url::parse(text).map_err(|error| error.to_string()).map(|url| UrlParts {
        scheme: url.scheme().to_owned(),
        host: url.host_str().map(str::to_owned),
        username: url.username().to_owned(),
        password: url.password().map(str::to_owned),
        pairs: url.query_pairs().map(|(key, value)| (key.into_owned(), value.into_owned())).collect(),
        fragment: url.fragment().map(str::to_owned),
        written_bytes: url.as_str().len(),
        query_bytes: url.query().map(str::len),
    })
}

/// The text of a URL that `reqwest::Url` was given another user name, password,
/// query and fragment of.
pub uninterp spec fn rewritten_url(
    text: Seq<char>,
    username: Seq<char>,
    password: Option<Seq<char>>,
    query: Option<Seq<char>>,
    fragment: Option<Seq<char>>,
) -> Option<Seq<char>>;

pub open spec fn opt_view(s: Option<&str>) -> Option<Seq<char>> {
    match s {
        Some(t) => Some(t@),
        None => None,
    }
}

pub open spec fn opt_bytes(s: Option<Seq<char>>) -> int {
    match s {
        Some(t) => text::byte_len(t) as int,
        None => 0,
    }
}

/// The bytes of a URL as it is written that stand before its fragment.
pub open spec fn before_fragment(v: UrlView) -> int {
    v.written_bytes - (match v.fragment {
        Some(fragment) => text::byte_len(fragment) + 1,
        None => 0nat,
    })
}

/// The bytes of a URL as it is written that stand before its query.
pub open spec fn before_query(v: UrlView) -> int {
    before_fragment(v) - (match v.query_bytes {
        Some(n) => n + 1,
        None => 0int,
    })
}

/// The most bytes that a user name and a password take in a URL, with what sets them
/// off.
pub open spec fn credential_room(username: Seq<char>, password: Option<Seq<char>>) -> int {
    3 * (text::byte_len(username) + opt_bytes(password)) + 2
}

/// Whether the places of all parts of a URL stay within the 32 bits that
/// `reqwest::Url` counts them in, while it is given another user name, password and
/// query.
pub open spec fn has_room(
    v: UrlView,
    username: Seq<char>,
    password: Option<Seq<char>>,
    query: Option<Seq<char>>,
) -> bool {
    &&& before_fragment(v) + credential_room(username, password) < u32::MAX
    &&& before_query(v) + credential_room(username, password) + 1 + opt_bytes(query) <= u32::MAX
}

/// The characters of a query of pairs, which stand in a URL as they are.
pub open spec fn plain_query_char(c: char) -> bool {
    'A' <= c <= 'Z' || 'a' <= c <= 'z' || '0' <= c <= '9' || c == '*' || c == '-' || c == '.' || c
        == '_' || c == '%' || c == '+' || c == '&' || c == '='
}

pub open spec fn plain_query(s: Seq<char>) -> bool {
    forall|i: int| 0 <= i < s.len() ==> plain_query_char(#[trigger] s[i])
}

/// `reqwest::Url` read from a text, with its user name, password, query and
/// fragment set; where it has no place for a user name or a password, they are
/// left. The text it is written as is named; there is one just where
/// `reqwest::Url::parse` reads the text.
/// Setting a part panics where the place of a part passes 32 bits, so there has to be
/// room: a user name and a password take three bytes for one at most, and a query of
/// plain characters is written as it is.
#[verifier::external_body]
fn rewrite(
    endpoint: &str,
    username: &str,
    password: Option<&str>,
    query: Option<&str>,
    fragment: Option<&str>,
) -> (r: Option<String>)
    requires
        parsed_url(endpoint@) matches Ok(v) ==> has_room(
            v,
            username@,
            opt_view(password),
            opt_view(query),
        ),
        query matches Some(q) ==> plain_query(q@),
    ensures
        message::opt_text(r) == rewritten_url(
            endpoint@,
            username@,
            opt_view(password),
            opt_view(query),
            opt_view(fragment),
        ),
        r is Some <==> parsed_url(endpoint@) is Ok,
{
    let mut url = reqwest::Url::parse(endpoint).ok()?;
    let _ = url.set_username(username);
    let _ = url.set_password(password);
    url.set_query(None);
    url.set_fragment(fragment);
    url.set_query(query);
    Some(url.to_string())
}

/// A URL with another user name, password, query and fragment, where it is one and
/// has room for them.
pub open spec fn rewritten_where_fits(
    endpoint: Seq<char>,
    username: Seq<char>,
    password: Option<Seq<char>>,
    query: Option<Seq<char>>,
    fragment: Option<Seq<char>>,
) -> Option<Seq<char>> {
    match parsed_url(endpoint) {
        Ok(v) => if has_room(v, username, password, query) {
            rewritten_url(endpoint, username, password, query, fragment)
        } else {
            None
        },
        Err(_) => None,
    }
}

fn opt_count(s: Option<&str>) -> (n: i128)
    ensures
        n == opt_bytes(opt_view(s)),
        n <= usize::MAX,
{
    match s {
        Some(t) => text::byte_count(t) as i128,
        None => 0,
    }
}

/// Writes a URL anew with another user name, password, query and fragment.
pub(crate) fn rewrite_where_fits(
    endpoint: &str,
    username: &str,
    password: Option<&str>,
    query: Option<&str>,
    fragment: Option<&str>,
) -> (r: Option<String>)
    requires
        query matches Some(q) ==> plain_query(q@),
    ensures
        message::opt_text(r) == rewritten_where_fits(
            endpoint@,
            username@,
            opt_view(password),
            opt_view(query),
            opt_view(fragment),
        ),
{
    let parts = match parse(endpoint) {
        Ok(parts) => parts,
        Err(_) => return None,
    };
    let fragment_bytes: i128 = match &parts.fragment {
        Some(f) => text::byte_count(f.as_str()) as i128 + 1,
        None => 0,
    };
    let query_bytes: i128 = match parts.query_bytes {
        Some(n) => n as i128 + 1,
        None => 0,
    };
    let before: i128 = parts.written_bytes as i128 - fragment_bytes;
    let credentials: i128 = 3 * (text::byte_count(username) as i128 + opt_count(password)) + 2;
    if before + credentials < u32::MAX as i128 && before - query_bytes + credentials + 1 + opt_count(
        query,
    ) <= u32::MAX as i128 {
        rewrite(endpoint, username, password, query, fragment)
    } else {
        None
    }
}

/// The bytes that a query carries as they are.
pub open spec fn unchanged_byte(b: u8) -> bool {
    b == 0x2a || b == 0x2d || b == 0x2e || 0x30 <= b <= 0x39 || 0x41 <= b <= 0x5a || b == 0x5f
        || 0x61 <= b <= 0x7a
}

/// A hexadecimal digit in capitals.
pub open spec fn capital_digit(n: int) -> char {
    if n < 10 {
        ('0' as int + n) as char
    } else {
        ('A' as int + n - 10) as char
    }
}

/// A byte in a query.
pub open spec fn query_byte(b: u8) -> Seq<char> {
    if unchanged_byte(b) {
        seq![b as char]
    } else if b == 0x20 {
        seq!['+']
    } else {
        seq!['%', capital_digit((b / 16) as int), capital_digit((b % 16) as int)]
    }
}

pub open spec fn query_bytes(bytes: Seq<u8>) -> Seq<char>
    decreases bytes.len(),
{
    if bytes.len() == 0 {
        Seq::empty()
    } else {
        query_bytes(bytes.drop_last()) + query_byte(bytes.last())
    }
}

/// A text in a query.
pub open spec fn query_text(s: Seq<char>) -> Seq<char> {
    query_bytes(encode_utf8(s))
}

/// Pairs of key and value as a query.
pub open spec fn query_of(pairs: Seq<(Seq<char>, Seq<char>)>) -> Seq<char>
    decreases pairs.len(),
{
    if pairs.len() == 0 {
        Seq::empty()
    } else {
        let before = query_of(pairs.drop_last());
        let separator = if pairs.len() > 1 {
            "&"@
        } else {
            Seq::empty()
        };
        before + separator + query_text(pairs.last().0) + "="@ + query_text(pairs.last().1)
    }
}

proof fn lemma_query_bytes_plain(bytes: Seq<u8>)
    ensures
        plain_query(query_bytes(bytes)),
    decreases bytes.len(),
{
    if bytes.len() > 0 {
        lemma_query_bytes_plain(bytes.drop_last());
        let b = bytes.last();
        assert(plain_query(query_byte(b)));
    }
}

/// A query of pairs is made of plain characters.
pub proof fn lemma_query_is_plain(pairs: Seq<(Seq<char>, Seq<char>)>)
    ensures
        plain_query(query_of(pairs)),
    decreases pairs.len(),
{
    if pairs.len() > 0 {
        reveal_strlit("&");
        reveal_strlit("=");
        lemma_query_is_plain(pairs.drop_last());
        lemma_query_bytes_plain(encode_utf8(pairs.last().0));
        lemma_query_bytes_plain(encode_utf8(pairs.last().1));
    }
}

fn capital_of(n: u8) -> (r: char)
    requires
        n < 16,
    ensures
        r == capital_digit(n as int),
{
    if n < 10 {
        let b: u8 = 48 + n;
        b as char
    } else {
        let b: u8 = 65 + (n - 10);
        b as char
    }
}

fn push_text(out: &mut String, s: &str)
    ensures
        final(out)@ == old(out)@ + query_text(s@),
{
    let ghost start = out@;
    let bytes = s.as_bytes();
    let mut i: usize = 0;
    assert(out@ =~= start + query_bytes(bytes@.take(0)));
    while i < bytes.len()
        invariant
            i <= bytes.len(),
            out@ == start + query_bytes(bytes@.take(i as int)),
        decreases bytes.len() - i,
    {
        let b = bytes[i];
        let same = b == 0x2a || b == 0x2d || b == 0x2e || (0x30 <= b && b <= 0x39) || (0x41 <= b
            && b <= 0x5a) || b == 0x5f || (0x61 <= b && b <= 0x7a);
        let ghost before = out@;
        if same {
            out.push(b as char);
        } else if b == 0x20 {
            out.push('+');
        } else {
            out.push('%');
            out.push(capital_of(b / 16));
            out.push(capital_of(b % 16));
        }
        assert(out@ =~= before + query_byte(b));
        assert(bytes@.take(i + 1).drop_last() =~= bytes@.take(i as int));
        assert(out@ =~= start + query_bytes(bytes@.take(i + 1)));
        i = i + 1;
    }
    assert(bytes@.take(bytes@.len() as int) =~= bytes@);
}

/// Writes pairs as a query.
pub fn to_query(pairs: &Vec<(String, String)>) -> (r: String)
    ensures
        r@ == query_of(pair_views(pairs@)),
{
    let ghost all = pair_views(pairs@);
    let mut out = String::new();
    let mut i: usize = 0;
    assert(out@ =~= query_of(all.take(0)));
    while i < pairs.len()
        invariant
            i <= pairs.len(),
            all == pair_views(pairs@),
            out@ == query_of(all.take(i as int)),
        decreases pairs.len() - i,
    {
        let ghost before = out@;
        if i > 0 {
            out.append("&");
        }
        let pair = &pairs[i];
        push_text(&mut out, pair.0.as_str());
        out.append("=");
        push_text(&mut out, pair.1.as_str());
        assert(all.take(i + 1).drop_last() =~= all.take(i as int));
        assert(all.take(i + 1).last() == (pair.0@, pair.1@));
        assert(out@ =~= query_of(all.take(i + 1)));
        i = i + 1;
    }
    assert(all.take(all.len() as int) =~= all);
    out
}

} // verus!
