//! What must not be shown: which headers and query keys hold credentials, and
//! how their values are taken out of texts.
use vstd::prelude::*;
use vstd::string::*;

use crate::json;
use crate::text;

verus! {

/// What stands in place of a secret.
pub open spec fn marker() -> Seq<char> {
    "[REDACTED]"@
}

/// Whether the value of a header is a credential.
pub open spec fn sensitive_header(name: Seq<char>) -> bool {
    let lower = text::lower(name);
    ||| lower == "authorization"@
    ||| lower == "proxy-authorization"@
    ||| lower == "x-api-key"@
    ||| lower == "api-key"@
    ||| lower == "x-goog-api-key"@
    ||| lower == "cookie"@
    ||| lower == "set-cookie"@
    ||| lower == "x-auth-token"@
    ||| lower == "x-amz-security-token"@
    ||| text::contains(lower, "authorization"@)
    ||| text::contains(lower, "api-key"@)
    ||| text::contains(lower, "apikey"@)
    ||| text::contains(lower, "token"@)
    ||| text::contains(lower, "secret"@)
    ||| text::contains(lower, "credential"@)
    ||| text::contains(lower, "signature"@)
}

pub fn is_sensitive_header_name(name: &str) -> (r: bool)
    ensures
        r == sensitive_header(name@),
{
    let lowered = text::lowered(name);
    let lower = lowered.as_str();
    text::same(lower, "authorization") || text::same(lower, "proxy-authorization") || text::same(
        lower,
        "x-api-key",
    ) || text::same(lower, "api-key") || text::same(lower, "x-goog-api-key") || text::same(
        lower,
        "cookie",
    ) || text::same(lower, "set-cookie") || text::same(lower, "x-auth-token") || text::same(
        lower,
        "x-amz-security-token",
    ) || text::has(lower, "authorization") || text::has(lower, "api-key") || text::has(
        lower,
        "apikey",
    ) || text::has(lower, "token") || text::has(lower, "secret") || text::has(lower, "credential")
        || text::has(lower, "signature")
}

/// Whether the value of a query key is a secret.
pub open spec fn secret_query_key(key: Seq<char>) -> bool {
    let lower = text::lower(key);
    ||| text::contains(lower, "key"@)
    ||| text::contains(lower, "token"@)
    ||| text::contains(lower, "secret"@)
    ||| text::contains(lower, "password"@)
    ||| text::contains(lower, "apikey"@)
    ||| lower == "auth"@
    ||| text::contains(lower, "authorization"@)
    ||| text::contains(lower, "credential"@)
    ||| text::contains(lower, "signature"@)
    ||| lower == "sig"@
    ||| text::ends_with(lower, "_sig"@)
    ||| text::ends_with(lower, "-sig"@)
}

pub fn is_secret_query_key(key: &str) -> (r: bool)
    ensures
        r == secret_query_key(key@),
{
    let lowered = text::lowered(key);
    let lower = lowered.as_str();
    text::has(lower, "key") || text::has(lower, "token") || text::has(lower, "secret")
        || text::has(lower, "password") || text::has(lower, "apikey") || text::same(lower, "auth")
        || text::has(lower, "authorization") || text::has(lower, "credential") || text::has(
        lower,
        "signature",
    ) || text::same(lower, "sig") || text::ends(lower, "_sig") || text::ends(lower, "-sig")
}

/// Texts from the longest to the shortest, equally long ones in the order of
/// their characters.
pub open spec fn before(a: Seq<char>, b: Seq<char>) -> bool {
    text::byte_len(a) > text::byte_len(b) || (text::byte_len(a) == text::byte_len(b)
        && json::text_less(a, b))
}

/// A list in that order with one more text in its place; a text that is there
/// already, and an empty one, changes nothing.
pub open spec fn filed(list: Seq<Seq<char>>, value: Seq<char>) -> Seq<Seq<char>>
    decreases list.len(),
{
    if value.len() == 0 {
        list
    } else if list.len() == 0 {
        seq![value]
    } else if list.last() == value {
        list
    } else if before(list.last(), value) {
        list.push(value)
    } else {
        filed(list.drop_last(), value).push(list.last())
    }
}

/// The secrets in their normal form: each once, the longest first.
pub open spec fn normal_secrets(values: Seq<Seq<char>>) -> Seq<Seq<char>>
    decreases values.len(),
{
    if values.len() == 0 {
        Seq::empty()
    } else {
        filed(normal_secrets(values.drop_last()), values.last())
    }
}

fn stands_before(a: &str, b: &str) -> (r: bool)
    ensures
        r == before(a@, b@),
{
    let x: usize = text::byte_count(a);
    let y: usize = text::byte_count(b);
    x > y || (x == y && json::less(a, b))
}

fn file(list: &mut Vec<String>, value: &str)
    ensures
        text::texts(final(list)@) == filed(text::texts(old(list)@), value@),
{
    if value.is_empty() {
        return;
    }
    let ghost all = text::texts(list@);
    let ghost new = value@;
    let n: usize = list.len();
    let mut i: usize = n;
    assert(all.take(n as int) =~= all);
    assert(filed(all.take(n as int), new) + all.skip(n as int) =~= filed(all, new));
    while i > 0
        invariant
            i <= n == list@.len(),
            new == value@,
            new.len() > 0,
            all == text::texts(list@),
            *list == *old(list),
            filed(all, new) == filed(all.take(i as int), new) + all.skip(i as int),
        ensures
            i > 0 ==> all[i - 1] != new && before(all[i - 1], new),
        decreases i,
    {
        let ghost part = all.take(i as int);
        assert(part.last() == list@[i - 1]@);
        if text::same(list[i - 1].as_str(), value) {
            assert(part + all.skip(i as int) =~= all);
            return;
        }
        if stands_before(list[i - 1].as_str(), value) {
            break;
        }
        assert(part.drop_last() =~= all.take(i - 1));
        assert(filed(all.take(i - 1), new).push(all[i - 1]) + all.skip(i as int) =~= filed(
            all.take(i - 1),
            new,
        ) + all.skip(i - 1));
        i = i - 1;
    }
    let ghost start = list@;
    list.insert(i, value.to_owned());
    assert(text::texts(list@) =~= text::texts(start).insert(i as int, new));
    assert(all.insert(i as int, new) =~= all.take(i as int).push(new) + all.skip(i as int));
}

/// Puts secrets into their normal form.
pub fn normalize_sensitive_values(values: &Vec<String>) -> (r: Vec<String>)
    ensures
        text::texts(r@) == normal_secrets(text::texts(values@)),
{
    let ghost all = text::texts(values@);
    let mut out: Vec<String> = Vec::new();
    let mut i: usize = 0;
    assert(text::texts(out@) =~= normal_secrets(all.take(0)));
    while i < values.len()
        invariant
            i <= values.len(),
            all == text::texts(values@),
            text::texts(out@) == normal_secrets(all.take(i as int)),
        decreases values.len() - i,
    {
        file(&mut out, values[i].as_str());
        assert(all.take(i + 1).drop_last() =~= all.take(i as int));
        assert(all.take(i + 1).last() == values@[i as int]@);
        i = i + 1;
    }
    assert(all.take(all.len() as int) =~= all);
    out
}

/// A list from the longest to the shortest text with one more, behind those that
/// are as long; an empty one changes nothing.
pub open spec fn placed(list: Seq<Seq<char>>, value: Seq<char>) -> Seq<Seq<char>>
    decreases list.len(),
{
    if value.len() == 0 {
        list
    } else if list.len() == 0 {
        seq![value]
    } else if text::byte_len(list.last()) >= text::byte_len(value) {
        list.push(value)
    } else {
        placed(list.drop_last(), value).push(list.last())
    }
}

/// The texts that are not empty from the longest to the shortest, equally long
/// ones in the order they came in.
pub open spec fn by_length(values: Seq<Seq<char>>) -> Seq<Seq<char>>
    decreases values.len(),
{
    if values.len() == 0 {
        Seq::empty()
    } else {
        placed(by_length(values.drop_last()), values.last())
    }
}

/// A list without those that equal the one before them.
pub open spec fn thinned(list: Seq<Seq<char>>) -> Seq<Seq<char>>
    decreases list.len(),
{
    if list.len() == 0 {
        list
    } else {
        let front = thinned(list.drop_last());
        if front.len() > 0 && front.last() == list.last() {
            front
        } else {
            front.push(list.last())
        }
    }
}

/// A text with the values replaced one after the other.
pub open spec fn marked(s: Seq<char>, values: Seq<Seq<char>>) -> Seq<char>
    decreases values.len(),
{
    if values.len() == 0 {
        s
    } else {
        text::replaced(marked(s, values.drop_last()), values.last(), marker())
    }
}

/// A text without the secrets.
pub open spec fn redacted(s: Seq<char>, values: Seq<Seq<char>>) -> Seq<char> {
    marked(s, thinned(by_length(values)))
}

fn place(list: &mut Vec<String>, value: &str)
    ensures
        text::texts(final(list)@) == placed(text::texts(old(list)@), value@),
{
    if value.is_empty() {
        return;
    }
    let ghost all = text::texts(list@);
    let ghost new = value@;
    let n: usize = list.len();
    let mut i: usize = n;
    let size: usize = text::byte_count(value);
    assert(all.take(n as int) =~= all);
    assert(placed(all.take(n as int), new) + all.skip(n as int) =~= placed(all, new));
    while i > 0 && text::byte_count(list[i - 1].as_str()) < size
        invariant
            i <= n == list@.len(),
            new == value@,
            new.len() > 0,
            size == text::byte_len(new),
            all == text::texts(list@),
            *list == *old(list),
            placed(all, new) == placed(all.take(i as int), new) + all.skip(i as int),
        decreases i,
    {
        let ghost part = all.take(i as int);
        assert(part.last() == list@[i - 1]@);
        assert(part.drop_last() =~= all.take(i - 1));
        assert(placed(all.take(i - 1), new).push(all[i - 1]) + all.skip(i as int) =~= placed(
            all.take(i - 1),
            new,
        ) + all.skip(i - 1));
        i = i - 1;
    }
    let ghost start = list@;
    list.insert(i, value.to_owned());
    assert(text::texts(list@) =~= text::texts(start).insert(i as int, new));
    assert(all.insert(i as int, new) =~= all.take(i as int).push(new) + all.skip(i as int));
    assert(i > 0 ==> all.take(i as int).last() == list@[i - 1]@);
}

fn longest_first(values: &Vec<String>) -> (out: Vec<String>)
    ensures
        text::texts(out@) == by_length(text::texts(values@)),
{
    let ghost all = text::texts(values@);
    let mut out: Vec<String> = Vec::new();
    let mut i: usize = 0;
    assert(text::texts(out@) =~= by_length(all.take(0)));
    while i < values.len()
        invariant
            i <= values.len(),
            all == text::texts(values@),
            text::texts(out@) == by_length(all.take(i as int)),
        decreases values.len() - i,
    {
        place(&mut out, values[i].as_str());
        assert(all.take(i + 1).drop_last() =~= all.take(i as int));
        assert(all.take(i + 1).last() == values@[i as int]@);
        i = i + 1;
    }
    assert(all.take(all.len() as int) =~= all);
    out
}

fn thin(list: &Vec<String>) -> (out: Vec<String>)
    ensures
        text::texts(out@) == thinned(text::texts(list@)),
{
    let ghost all = text::texts(list@);
    let mut out: Vec<String> = Vec::new();
    let mut i: usize = 0;
    assert(text::texts(out@) =~= thinned(all.take(0)));
    while i < list.len()
        invariant
            i <= list.len(),
            all == text::texts(list@),
            text::texts(out@) == thinned(all.take(i as int)),
        decreases list.len() - i,
    {
        let n: usize = out.len();
        assert(all.take(i + 1).drop_last() =~= all.take(i as int));
        assert(all.take(i + 1).last() == list@[i as int]@);
        assert(n > 0 ==> text::texts(out@).last() == out@[n - 1]@);
        if n == 0 || !text::same(out[n - 1].as_str(), list[i].as_str()) {
            let ghost done = out@;
            out.push(list[i].clone());
            assert(text::texts(out@) =~= text::texts(done).push(list@[i as int]@));
        }
        i = i + 1;
    }
    assert(all.take(all.len() as int) =~= all);
    out
}

/// What `placed` holds is what was there and the new text.
proof fn lemma_placed_members(list: Seq<Seq<char>>, value: Seq<char>)
    ensures
        forall|v: Seq<char>| #[trigger]
            placed(list, value).contains(v) <==> list.contains(v) || (v == value && value.len()
                > 0),
    decreases list.len(),
{
    let r = placed(list, value);
    if value.len() == 0 {
    } else if list.len() == 0 {
        assert forall|v: Seq<char>| #[trigger] r.contains(v) <==> v == value by {
            assert(r[0] == value);
        }
    } else if text::byte_len(list.last()) >= text::byte_len(value) {
        assert forall|v: Seq<char>| #[trigger] r.contains(v) <==> list.contains(v) || v
            == value by {
            assert(r[r.len() - 1] == value);
            if list.contains(v) {
                let i = choose|i: int| 0 <= i < list.len() && list[i] == v;
                assert(r[i] == v);
            }
        }
    } else {
        let front = list.drop_last();
        let inner = placed(front, value);
        lemma_placed_members(front, value);
        assert forall|v: Seq<char>| #[trigger] r.contains(v) <==> list.contains(v) || v
            == value by {
            assert(r[r.len() - 1] == list.last());
            if list.contains(v) {
                let i = choose|i: int| 0 <= i < list.len() && list[i] == v;
                if i < front.len() {
                    assert(front[i] == v);
                    assert(inner.contains(v));
                }
            }
            if inner.contains(v) {
                let j = choose|j: int| 0 <= j < inner.len() && inner[j] == v;
                assert(r[j] == v);
            }
            if r.contains(v) {
                let k = choose|k: int| 0 <= k < r.len() && r[k] == v;
                if k < inner.len() {
                    assert(inner[k] == v);
                    assert(inner.contains(v));
                    if front.contains(v) {
                        let m = choose|m: int| 0 <= m < front.len() && front[m] == v;
                        assert(list[m] == v);
                    }
                } else {
                    assert(list[list.len() - 1] == v);
                }
            }
        }
    }
}

pub(crate) proof fn lemma_by_length_members(values: Seq<Seq<char>>)
    ensures
        forall|v: Seq<char>| #[trigger]
            by_length(values).contains(v) <==> values.contains(v) && v.len() > 0,
    decreases values.len(),
{
    if values.len() > 0 {
        let front = values.drop_last();
        lemma_by_length_members(front);
        lemma_placed_members(by_length(front), values.last());
        assert forall|v: Seq<char>| values.contains(v) <==> front.contains(v) || v
            == values.last() by {
            if values.contains(v) {
                let i = choose|i: int| 0 <= i < values.len() && values[i] == v;
                if i < front.len() {
                    assert(front[i] == v);
                }
            }
            if front.contains(v) {
                let i = choose|i: int| 0 <= i < front.len() && front[i] == v;
                assert(values[i] == v);
            }
            assert(values[values.len() - 1] == values.last());
        }
    }
}

pub(crate) proof fn lemma_thinned_members(list: Seq<Seq<char>>)
    ensures
        forall|v: Seq<char>| #[trigger] thinned(list).contains(v) <==> list.contains(v),
    decreases list.len(),
{
    if list.len() > 0 {
        let front = list.drop_last();
        lemma_thinned_members(front);
        let inner = thinned(front);
        let r = thinned(list);
        assert forall|v: Seq<char>| #[trigger] r.contains(v) <==> list.contains(v) by {
            if list.contains(v) {
                let i = choose|i: int| 0 <= i < list.len() && list[i] == v;
                if i < front.len() {
                    assert(front[i] == v);
                    assert(inner.contains(v));
                    let j = choose|j: int| 0 <= j < inner.len() && inner[j] == v;
                    assert(r[j] == v);
                } else {
                    assert(r[r.len() - 1] == v);
                }
            }
            if r.contains(v) {
                let k = choose|k: int| 0 <= k < r.len() && r[k] == v;
                if k < inner.len() {
                    assert(inner[k] == v);
                    assert(inner.contains(v));
                    let m = choose|m: int| 0 <= m < front.len() && front[m] == v;
                    assert(list[m] == v);
                } else {
                    assert(list[list.len() - 1] == v);
                }
            }
        }
    }
}

spec fn from_longest(list: Seq<Seq<char>>) -> bool {
    forall|i: int, j: int|
        0 <= i < j < list.len() ==> text::byte_len(#[trigger] list[i]) >= text::byte_len(
            #[trigger] list[j],
        )
}

proof fn lemma_placed_in_order(list: Seq<Seq<char>>, value: Seq<char>)
    requires
        from_longest(list),
    ensures
        from_longest(placed(list, value)),
        forall|i: int|
            0 <= i < placed(list, value).len() ==> #[trigger] placed(list, value)[i] == value
                || list.contains(placed(list, value)[i]),
    decreases list.len(),
{
    let r = placed(list, value);
    if value.len() == 0 || list.len() == 0 {
        assert forall|i: int| 0 <= i < r.len() implies #[trigger] r[i] == value || list.contains(
            r[i],
        ) by {}
    } else if text::byte_len(list.last()) >= text::byte_len(value) {
        assert forall|i: int, j: int| 0 <= i < j < r.len() implies text::byte_len(
            #[trigger] r[i],
        ) >= text::byte_len(#[trigger] r[j]) by {
            if j == list.len() && i < list.len() - 1 {
                assert(text::byte_len(list[i]) >= text::byte_len(list[list.len() - 1]));
            }
        }
    } else {
        let front = list.drop_last();
        let inner = placed(front, value);
        lemma_placed_in_order(front, value);
        assert forall|i: int| 0 <= i < r.len() implies #[trigger] r[i] == value || list.contains(
            r[i],
        ) by {
            if i < inner.len() && inner[i] != value {
                assert(front.contains(inner[i]));
                let k = choose|k: int| 0 <= k < front.len() && front[k] == inner[i];
                assert(list[k] == r[i]);
            } else if i == inner.len() {
                assert(list[list.len() - 1] == r[i]);
            }
        }
        assert forall|i: int, j: int| 0 <= i < j < r.len() implies text::byte_len(
            #[trigger] r[i],
        ) >= text::byte_len(#[trigger] r[j]) by {
            if j == inner.len() && inner[i] != value {
                assert(front.contains(inner[i]));
                let k = choose|k: int| 0 <= k < front.len() && front[k] == inner[i];
                assert(text::byte_len(list[k]) >= text::byte_len(list[list.len() - 1]));
            } else if j < inner.len() {
                assert(text::byte_len(inner[i]) >= text::byte_len(inner[j]));
            }
        }
    }
}

proof fn lemma_by_length_in_order(values: Seq<Seq<char>>)
    ensures
        from_longest(by_length(values)),
    decreases values.len(),
{
    if values.len() > 0 {
        lemma_by_length_in_order(values.drop_last());
        lemma_placed_in_order(by_length(values.drop_last()), values.last());
    }
}

proof fn lemma_thinned_in_order(list: Seq<Seq<char>>)
    requires
        from_longest(list),
    ensures
        from_longest(thinned(list)),
    decreases list.len(),
{
    if list.len() > 0 {
        let front = list.drop_last();
        let inner = thinned(front);
        let r = thinned(list);
        lemma_thinned_in_order(front);
        lemma_thinned_members(front);
        assert forall|i: int, j: int| 0 <= i < j < r.len() implies text::byte_len(
            #[trigger] r[i],
        ) >= text::byte_len(#[trigger] r[j]) by {
            if j == inner.len() {
                assert(inner.contains(inner[i]));
                let k = choose|k: int| 0 <= k < front.len() && front[k] == inner[i];
                assert(text::byte_len(list[k]) >= text::byte_len(list[list.len() - 1]));
            } else {
                assert(text::byte_len(inner[i]) >= text::byte_len(inner[j]));
            }
        }
    }
}

/// Secrets are marked from the longest to the shortest.
pub(crate) proof fn lemma_longest_first(values: Seq<Seq<char>>)
    ensures
        forall|i: int, j: int|
            0 <= i < j < thinned(by_length(values)).len() ==> text::byte_len(
                #[trigger] thinned(by_length(values))[i],
            ) >= text::byte_len(#[trigger] thinned(by_length(values))[j]),
{
    lemma_by_length_in_order(values);
    lemma_thinned_in_order(by_length(values));
}

/// A secret that the mark cannot give back: it has no bracket in it and is no
/// part of the mark.
pub open spec fn apart_from_marker(value: Seq<char>) -> bool {
    !value.contains('[') && !value.contains(']') && !text::contains(marker(), value)
}

/// What begins a text with marks in it, and has no bracket, begins the text
/// without them.
pub(crate) proof fn lemma_start_survives(s: Seq<char>, p: Seq<char>, q: Seq<char>)
    requires
        !q.contains('['),
        text::starts_with(text::replaced(s, p, marker()), q),
    ensures
        text::starts_with(s, q),
    decreases s.len(),
{
    reveal_strlit("[REDACTED]");
    let out = text::replaced(s, p, marker());
    if q.len() == 0 {
        assert(s.subrange(0, 0) =~= q);
    } else if s.len() == 0 || p.len() == 0 {
    } else {
        assert(q[0] == out.subrange(0, q.len() as int)[0]);
        if text::occurs_at(s, p, 0) {
            assert(out[0] == '[');
            assert(q.contains(q[0]));
        } else {
            let rest = s.skip(1);
            let tail = q.skip(1);
            let inner = text::replaced(rest, p, marker());
            assert(inner.subrange(0, tail.len() as int) =~= tail) by {
                assert forall|i: int| 0 <= i < tail.len() implies inner[i] == tail[i] by {
                    assert(out[i + 1] == out.subrange(0, q.len() as int)[i + 1]);
                }
            }
            assert(!tail.contains('[')) by {
                if tail.contains('[') {
                    let i = choose|i: int| 0 <= i < tail.len() && tail[i] == '[';
                    assert(q[i + 1] == '[');
                }
            }
            lemma_start_survives(rest, p, tail);
            assert(s.subrange(0, q.len() as int) =~= q) by {
                assert forall|i: int| 0 <= i < q.len() implies s[i] == q[i] by {
                    if i > 0 {
                        assert(rest[i - 1] == rest.subrange(0, tail.len() as int)[i - 1]);
                    }
                }
            }
        }
    }
}

/// Where a secret stands in a text with marks in it, it stands in the text
/// without them; and the one that was marked stands there no more.
pub(crate) proof fn lemma_marks_give_nothing_back(s: Seq<char>, p: Seq<char>, q: Seq<char>)
    requires
        q.len() > 0,
        p.len() > 0,
        apart_from_marker(q),
    ensures
        text::contains(text::replaced(s, p, marker()), q) ==> text::contains(s, q) && p != q,
    decreases s.len(),
{
    let w = marker();
    let out = text::replaced(s, p, w);
    if text::contains(out, q) {
        reveal_strlit("[REDACTED]");
        let i = choose|i: int| text::occurs_at(out, q, i);
        if s.len() == 0 {
        } else if text::occurs_at(s, p, 0) {
            let rest = s.skip(p.len() as int);
            let inner = text::replaced(rest, p, w);
            if i >= w.len() {
                assert(inner.subrange(i - w.len(), i - w.len() + q.len()) =~= out.subrange(
                    i,
                    i + q.len(),
                ));
                assert(text::occurs_at(inner, q, i - w.len()));
                lemma_marks_give_nothing_back(rest, p, q);
                let j = choose|j: int| text::occurs_at(rest, q, j);
                assert(s.subrange(j + p.len(), j + p.len() + q.len()) =~= rest.subrange(
                    j,
                    j + q.len(),
                ));
                assert(text::occurs_at(s, q, j + p.len()));
            } else if i + q.len() <= w.len() {
                assert(w.subrange(i, i + q.len()) =~= out.subrange(i, i + q.len()));
                assert(text::occurs_at(w, q, i));
            } else {
                assert(out[w.len() - 1] == w[w.len() - 1]);
                assert(q[w.len() - 1 - i] == out.subrange(i, i + q.len())[w.len() - 1 - i]);
                assert(q.contains(']'));
            }
        } else {
            let rest = s.skip(1);
            let inner = text::replaced(rest, p, w);
            if i >= 1 {
                assert(inner.subrange(i - 1, i - 1 + q.len()) =~= out.subrange(i, i + q.len()));
                assert(text::occurs_at(inner, q, i - 1));
                lemma_marks_give_nothing_back(rest, p, q);
                let j = choose|j: int| text::occurs_at(rest, q, j);
                assert(s.subrange(j + 1, j + 1 + q.len()) =~= rest.subrange(j, j + q.len()));
                assert(text::occurs_at(s, q, j + 1));
            } else {
                lemma_start_survives(s, p, q);
                assert(text::occurs_at(s, q, 0));
            }
        }
    }
}

proof fn lemma_marked_holds_none(s: Seq<char>, values: Seq<Seq<char>>, q: Seq<char>)
    requires
        apart_from_marker(q),
        forall|v: Seq<char>| #[trigger] values.contains(v) ==> v.len() > 0,
        values.contains(q),
    ensures
        !text::contains(marked(s, values), q),
    decreases values.len(),
{
    if values.len() > 0 {
        let front = values.drop_last();
        assert forall|v: Seq<char>| #[trigger] front.contains(v) implies v.len() > 0 by {
            let i = choose|i: int| 0 <= i < front.len() && front[i] == v;
            assert(values[i] == v);
            assert(values.contains(v));
        }
        assert(values.contains(values.last()));
        lemma_marks_give_nothing_back(marked(s, front), values.last(), q);
        if values.last() != q {
            let i = choose|i: int| 0 <= i < values.len() && values[i] == q;
            assert(front[i] == q);
            lemma_marked_holds_none(s, front, q);
        }
    }
}

/// A text that the secrets were taken out of holds none of them: of those that
/// have no bracket in them and are no part of the mark that takes their place.
pub proof fn law_redacted_text_holds_no_secret(
    s: Seq<char>,
    values: Seq<Seq<char>>,
    value: Seq<char>,
)
    requires
        values.contains(value),
        value.len() > 0,
        apart_from_marker(value),
    ensures
        !text::contains(redacted(s, values), value),
{
    lemma_by_length_members(values);
    lemma_thinned_members(by_length(values));
    let list = thinned(by_length(values));
    assert(by_length(values).contains(value));
    assert forall|v: Seq<char>| #[trigger] list.contains(v) implies v.len() > 0 by {
        assert(by_length(values).contains(v));
    }
    lemma_marked_holds_none(s, list, value);
}

proof fn lemma_marked_absent(s: Seq<char>, values: Seq<Seq<char>>)
    requires
        forall|v: Seq<char>| #[trigger] values.contains(v) ==> !text::contains(s, v),
    ensures
        marked(s, values) == s,
    decreases values.len(),
{
    if values.len() > 0 {
        let front = values.drop_last();
        assert forall|v: Seq<char>| #[trigger] front.contains(v) implies !text::contains(s, v) by {
            let i = choose|i: int| 0 <= i < front.len() && front[i] == v;
            assert(values[i] == v);
            assert(values.contains(v));
        }
        lemma_marked_absent(s, front);
        assert(values.contains(values.last()));
        text::lemma_replaced_absent(s, values.last(), marker());
    }
}

/// A text that holds no secret is left as it is.
pub proof fn law_clean_text_is_kept(s: Seq<char>, values: Seq<Seq<char>>)
    requires
        forall|v: Seq<char>| #[trigger]
            values.contains(v) && v.len() > 0 ==> !text::contains(s, v),
    ensures
        redacted(s, values) == s,
{
    lemma_by_length_members(values);
    lemma_thinned_members(by_length(values));
    let list = thinned(by_length(values));
    assert forall|v: Seq<char>| #[trigger] list.contains(v) implies !text::contains(s, v) by {
        assert(by_length(values).contains(v));
    }
    lemma_marked_absent(s, list);
}

/// Takes the secrets out of a text, the longest first.
pub fn redact_values(input: &str, sensitive_values: &Vec<String>) -> (r: String)
    ensures
        r@ == redacted(input@, text::texts(sensitive_values@)),
{
    let ordered = longest_first(sensitive_values);
    let values = thin(&ordered);
    let ghost all = text::texts(values@);
    proof {
        lemma_by_length_members(text::texts(sensitive_values@));
        lemma_thinned_members(by_length(text::texts(sensitive_values@)));
    }
    let mut out = input.to_owned();
    let mut i: usize = 0;
    assert(all.take(0) =~= Seq::empty());
    while i < values.len()
        invariant
            i <= values.len(),
            all == text::texts(values@),
            forall|v: Seq<char>| #[trigger] all.contains(v) ==> v.len() > 0,
            out@ == marked(input@, all.take(i as int)),
        decreases values.len() - i,
    {
        assert(all[i as int] == values@[i as int]@);
        assert(all.contains(values@[i as int]@));
        out = text::replace(out.as_str(), values[i].as_str(), "[REDACTED]");
        assert(all.take(i + 1).drop_last() =~= all.take(i as int));
        i = i + 1;
    }
    assert(all.take(all.len() as int) =~= all);
    out
}

} // verus!
