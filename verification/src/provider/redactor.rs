//! Takes secrets out of a stream of events, also where one is spread over several
//! of them.
use vstd::prelude::*;
use vstd::string::*;

use crate::provider::secrets;
use crate::provider::types;
use crate::provider::types::{ErrorView, ProviderError, ProviderEvent, StreamView};
use crate::runtime;
use crate::text;

verus! {

/// The longest beginning of a secret, at most `k` characters, that a text ends in.
pub open spec fn longest_start(input: Seq<char>, value: Seq<char>, k: int) -> int
    decreases k,
{
    if k <= 0 {
        0
    } else if text::ends_with(input, value.take(k)) {
        k
    } else {
        longest_start(input, value, k - 1)
    }
}

/// How many characters at the end of a text may be the beginning of a secret.
pub open spec fn held(input: Seq<char>, values: Seq<Seq<char>>) -> int
    decreases values.len(),
{
    if values.len() == 0 {
        0
    } else {
        let front = held(input, values.drop_last());
        let here = longest_start(input, values.last(), values.last().len() - 1);
        if here > front {
            here
        } else {
            front
        }
    }
}

/// Where the secret stands that a cut would go through, among those found one
/// behind the other from `from` on.
pub open spec fn straddling(input: Seq<char>, value: Seq<char>, from: int, split: int) -> Option<
    int,
>
    decreases input.len() - from,
{
    if value.len() == 0 || from < 0 || from >= input.len() {
        None
    } else {
        proof {
            text::lemma_find_from(input, value, from);
        }
        match text::find_from(input, value, from) {
            Some(start) => if start >= split || start < from {
                None
            } else if split < start + value.len() {
                Some(start)
            } else {
                straddling(input, value, start + value.len(), split)
            },
            None => None,
        }
    }
}

/// The first position at which a secret stands that a cut would go through.
pub open spec fn first_straddling(input: Seq<char>, values: Seq<Seq<char>>, split: int) -> Option<
    int,
>
    decreases values.len(),
{
    if values.len() == 0 {
        None
    } else {
        match (
            first_straddling(input, values.drop_last(), split),
            straddling(input, values.last(), 0, split),
        ) {
            (Some(a), Some(b)) => Some(
                if b < a {
                    b
                } else {
                    a
                },
            ),
            (Some(a), None) => Some(a),
            (None, b) => b,
        }
    }
}

/// A cut moved forward until it goes through no secret.
pub open spec fn settled_split(input: Seq<char>, values: Seq<Seq<char>>, split: int) -> int
    decreases split,
{
    match first_straddling(input, values, split) {
        Some(start) => if 0 <= start < split {
            settled_split(input, values, start)
        } else {
            split
        },
        None => split,
    }
}

/// How much of a text can be shown before the rest of the stream is known.
pub open spec fn safe_split(input: Seq<char>, values: Seq<Seq<char>>) -> int {
    settled_split(input, values, input.len() - held(input, values))
}

proof fn lemma_longest_start(input: Seq<char>, value: Seq<char>, k: int)
    requires
        k < value.len() || k <= 0,
    ensures
        0 <= longest_start(input, value, k) <= input.len(),
        longest_start(input, value, k) <= k || k < 0,
        forall|j: int|
            longest_start(input, value, k) < j <= k ==> !#[trigger] text::ends_with(
                input,
                value.take(j),
            ),
    decreases k,
{
    if k <= 0 {
    } else if text::ends_with(input, value.take(k)) {
        assert(value.take(k).len() == k);
    } else {
        lemma_longest_start(input, value, k - 1);
    }
}

proof fn lemma_held(input: Seq<char>, values: Seq<Seq<char>>)
    ensures
        0 <= held(input, values) <= input.len(),
    decreases values.len(),
{
    if values.len() > 0 {
        lemma_held(input, values.drop_last());
        lemma_longest_start(input, values.last(), values.last().len() - 1);
    }
}

proof fn lemma_straddling(input: Seq<char>, value: Seq<char>, from: int, split: int)
    requires
        0 <= from,
    ensures
        straddling(input, value, from, split) matches Some(start) ==> from <= start < split < start
            + value.len() && text::occurs_at(input, value, start),
    decreases input.len() - from,
{
    if value.len() > 0 && from < input.len() {
        text::lemma_find_from(input, value, from);
        if let Some(start) = text::find_from(input, value, from) {
            if start < split && start + value.len() <= split {
                lemma_straddling(input, value, start + value.len(), split);
            }
        }
    }
}

proof fn lemma_first_straddling(input: Seq<char>, values: Seq<Seq<char>>, split: int)
    ensures
        first_straddling(input, values, split) matches Some(start) ==> 0 <= start < split,
    decreases values.len(),
{
    if values.len() > 0 {
        lemma_first_straddling(input, values.drop_last(), split);
        lemma_straddling(input, values.last(), 0, split);
    }
}

proof fn lemma_settled_split(input: Seq<char>, values: Seq<Seq<char>>, split: int)
    requires
        0 <= split,
    ensures
        0 <= settled_split(input, values, split) <= split,
        first_straddling(input, values, settled_split(input, values, split)) is None,
    decreases split,
{
    lemma_first_straddling(input, values, split);
    if let Some(start) = first_straddling(input, values, split) {
        lemma_settled_split(input, values, start);
    }
}

proof fn lemma_safe_split(input: Seq<char>, values: Seq<Seq<char>>)
    ensures
        0 <= safe_split(input, values) <= input.len() - held(input, values),
        first_straddling(input, values, safe_split(input, values)) is None,
{
    lemma_held(input, values);
    lemma_settled_split(input, values, input.len() - held(input, values));
}

/// What can be shown of a text is a part of it.
pub proof fn lemma_safe_split_bounds(input: Seq<char>, values: Seq<Seq<char>>)
    ensures
        0 <= safe_split(input, values) <= input.len(),
{
    lemma_held(input, values);
    lemma_safe_split(input, values);
}

/// A text is never cut where one of the secrets found in it stands.
pub proof fn law_no_secret_is_cut(input: Seq<char>, values: Seq<Seq<char>>, i: int)
    requires
        0 <= i < values.len(),
    ensures
        straddling(input, values[i], 0, safe_split(input, values)) is None,
{
    lemma_safe_split(input, values);
    lemma_none_straddles(input, values, safe_split(input, values), i);
}

proof fn lemma_none_straddles(input: Seq<char>, values: Seq<Seq<char>>, split: int, i: int)
    requires
        0 <= i < values.len(),
        first_straddling(input, values, split) is None,
    ensures
        straddling(input, values[i], 0, split) is None,
    decreases values.len(),
{
    if i < values.len() - 1 {
        lemma_none_straddles(input, values.drop_last(), split, i);
    }
}

/// Whether replacing a secret treats the first `n` characters by themselves.
spec fn parts_at(s: Seq<char>, value: Seq<char>, n: int) -> bool
    decreases s.len(),
{
    if n <= 0 || s.len() == 0 || value.len() == 0 {
        true
    } else if text::occurs_at(s, value, 0) {
        value.len() <= n && parts_at(s.skip(value.len() as int), value, n - value.len())
    } else {
        parts_at(s.skip(1), value, n - 1)
    }
}

proof fn lemma_replaced_in_parts(a: Seq<char>, b: Seq<char>, value: Seq<char>, w: Seq<char>)
    requires
        parts_at(a + b, value, a.len() as int),
        value.len() > 0,
    ensures
        text::replaced(a + b, value, w) == text::replaced(a, value, w) + text::replaced(
            b,
            value,
            w,
        ),
    decreases a.len(),
{
    let s = a + b;
    if a.len() == 0 {
        assert(s =~= b);
        assert(text::replaced(a, value, w) + text::replaced(b, value, w) =~= text::replaced(
            b,
            value,
            w,
        ));
    } else if text::occurs_at(s, value, 0) {
        let k = value.len() as int;
        assert(a.subrange(0, k) =~= s.subrange(0, k));
        assert(s.skip(k) =~= a.skip(k) + b);
        lemma_replaced_in_parts(a.skip(k), b, value, w);
        assert(text::replaced(s, value, w) =~= text::replaced(a, value, w) + text::replaced(
            b,
            value,
            w,
        ));
    } else {
        assert(!text::occurs_at(a, value, 0)) by {
            if text::occurs_at(a, value, 0) {
                assert(a.subrange(0, value.len() as int) =~= s.subrange(0, value.len() as int));
            }
        }
        assert(s.skip(1) =~= a.skip(1) + b);
        lemma_replaced_in_parts(a.skip(1), b, value, w);
        assert(text::replaced(s, value, w) =~= text::replaced(a, value, w) + text::replaced(
            b,
            value,
            w,
        ));
    }
}

proof fn lemma_cut_parts(
    input: Seq<char>,
    more: Seq<char>,
    value: Seq<char>,
    from: int,
    split: int,
)
    requires
        value.len() > 0,
        0 <= from <= input.len(),
        straddling(input, value, from, split) is None,
        split <= input.len() - longest_start(input, value, value.len() - 1),
    ensures
        parts_at((input + more).skip(from), value, split - from),
    decreases input.len() - from,
{
    let whole = input + more;
    let rest = whole.skip(from);
    lemma_longest_start(input, value, value.len() - 1);
    if from < split {
        let k = value.len() as int;
        if text::occurs_at(rest, value, 0) {
            assert(whole.subrange(from, from + k) =~= rest.subrange(0, k));
            if from + k <= input.len() {
                assert(input.subrange(from, from + k) =~= whole.subrange(from, from + k));
                assert(text::occurs_at(input, value, from));
                assert(text::find_from(input, value, from) == Some(from));
                assert(from + k <= split);
                assert(rest.skip(k) =~= whole.skip(from + k));
                lemma_cut_parts(input, more, value, from + k, split);
            } else {
                let j = input.len() - from;
                assert(input.subrange(from, from + j) =~= value.take(j)) by {
                    assert forall|i: int| 0 <= i < j implies input[from + i] == value[i] by {
                        assert(whole[from + i] == whole.subrange(from, from + k)[i]);
                    }
                }
                assert(text::ends_with(input, value.take(j)));
            }
        } else {
            assert(!text::occurs_at(input, value, from)) by {
                if text::occurs_at(input, value, from) {
                    assert(rest.subrange(0, k) =~= input.subrange(from, from + k));
                }
            }
            assert(rest.skip(1) =~= whole.skip(from + 1));
            assert(straddling(input, value, from + 1, split) is None) by {
                if from + 1 < input.len() && from + k <= input.len() {
                    assert(text::find_from(input, value, from) == text::find_from(
                        input,
                        value,
                        from + 1,
                    ));
                    text::lemma_find_from(input, value, from + 1);
                } else if from + 1 < input.len() {
                    assert(text::find_from(input, value, from + 1) is None);
                }
            }
            lemma_cut_parts(input, more, value, from + 1, split);
        }
    }
}

proof fn lemma_one_secret(s: Seq<char>, value: Seq<char>)
    requires
        value.len() > 0,
    ensures
        secrets::redacted(s, seq![value]) == text::replaced(s, value, secrets::marker()),
{
    reveal_with_fuel(secrets::by_length, 2);
    reveal_with_fuel(secrets::thinned, 2);
    reveal_with_fuel(secrets::marked, 2);
    let one = seq![value];
    assert(one.drop_last() =~= Seq::empty());
    assert(secrets::by_length(one) =~= one);
    assert(secrets::thinned(one) =~= one);
}

/// Two secrets that no text has overlapping one another: none is a part of the
/// other, and no end of one begins the other.
pub open spec fn apart(p: Seq<char>, q: Seq<char>) -> bool {
    &&& !text::contains(p, q)
    &&& !text::contains(q, p)
    &&& forall|k: int| 0 < k < p.len() ==> !text::starts_with(q, #[trigger] p.skip(k))
    &&& forall|k: int| 0 < k < q.len() ==> !text::starts_with(p, #[trigger] q.skip(k))
}

/// Two secrets of which the second is the end of the first, as a key is of the header
/// that carries it, and stands in no text across the place where that end begins.
pub open spec fn tails(p: Seq<char>, q: Seq<char>) -> bool {
    let before = p.len() - q.len();
    &&& before > 0
    &&& p.skip(before) == q
    &&& forall|i: int|
        0 <= i < before && #[trigger] text::occurs_at(p, q, i) ==> i + q.len() <= before
    &&& forall|k: int|
        0 < k < q.len() && text::starts_with(p, #[trigger] q.skip(k)) ==> q.len() - k <= before
}

/// Whether the first of two secrets can be marked before the second.
pub open spec fn goes_before(p: Seq<char>, q: Seq<char>) -> bool {
    p == q || apart(p, q) || tails(p, q)
}

/// Secrets of which, where there are several, each two are apart or one is the end of
/// the other, and each is apart from the mark that takes its place.
pub open spec fn unmixed(values: Seq<Seq<char>>) -> bool {
    &&& forall|i: int| 0 <= i < values.len() ==> (#[trigger] values[i]).len() > 0
    &&& forall|i: int, j: int|
        0 <= i < values.len() && 0 <= j < values.len() && i != j ==> {
            &&& apart(#[trigger] values[i], #[trigger] values[j]) || tails(values[i], values[j])
                || tails(values[j], values[i])
            &&& secrets::apart_from_marker(values[i])
        }
}

/// Where one of two secrets that are apart stands, the other does not begin.
proof fn lemma_apart_keeps_out(s: Seq<char>, p: Seq<char>, q: Seq<char>, at: int)
    requires
        apart(p, q),
        text::occurs_at(s, p, 0),
        0 <= at < p.len(),
    ensures
        !text::occurs_at(s, q, at),
{
    if text::occurs_at(s, q, at) {
        if at + q.len() <= p.len() {
            assert(p.subrange(at, at + q.len()) =~= q) by {
                assert forall|i: int| 0 <= i < q.len() implies p[at + i] == q[i] by {
                    assert(s.subrange(0, p.len() as int)[at + i] == s[at + i]);
                    assert(s.subrange(at, at + q.len())[i] == s[at + i]);
                }
            }
            assert(text::occurs_at(p, q, at));
        } else {
            let k = p.len() - at;
            assert(q.subrange(0, k) =~= p.skip(at)) by {
                assert forall|i: int| 0 <= i < k implies q[i] == p.skip(at)[i] by {
                    assert(s.subrange(0, p.len() as int)[at + i] == s[at + i]);
                    assert(s.subrange(at, at + q.len())[i] == s[at + i]);
                }
            }
            if at == 0 {
                assert(p.skip(0) =~= p);
                assert(text::occurs_at(q, p, 0));
            } else {
                assert(text::starts_with(q, p.skip(at)));
            }
        }
    }
}

/// Nothing is parted where a secret does not begin.
proof fn lemma_parts_skip(s: Seq<char>, value: Seq<char>, n: int, m: int)
    requires
        0 <= m <= n,
        m <= s.len(),
        value.len() > 0,
        forall|i: int| 0 <= i < m ==> !#[trigger] text::occurs_at(s, value, i),
    ensures
        parts_at(s, value, n) == parts_at(s.skip(m), value, n - m),
    decreases m,
{
    if m == 0 {
        assert(s.skip(0) =~= s);
    } else {
        assert(!text::occurs_at(s, value, 0));
        let rest = s.skip(1);
        assert forall|i: int| 0 <= i < m - 1 implies !#[trigger] text::occurs_at(rest, value, i) by {
            if text::occurs_at(rest, value, i) {
                assert(s.subrange(i + 1, i + 1 + value.len()) =~= rest.subrange(
                    i,
                    i + value.len(),
                ));
                assert(text::occurs_at(s, value, i + 1));
            }
        }
        lemma_parts_skip(rest, value, n - 1, m - 1);
        assert(rest.skip(m - 1) =~= s.skip(m));
    }
}

/// What no secret begins in is copied.
proof fn lemma_replaced_copies(s: Seq<char>, value: Seq<char>, w: Seq<char>, m: int)
    requires
        0 <= m <= s.len(),
        forall|i: int| 0 <= i < m ==> !#[trigger] text::occurs_at(s, value, i),
    ensures
        text::replaced(s, value, w) == s.take(m) + text::replaced(s.skip(m), value, w),
    decreases m,
{
    if m == 0 {
        assert(s.skip(0) =~= s);
        assert(s.take(0) + text::replaced(s, value, w) =~= text::replaced(s, value, w));
    } else if value.len() == 0 {
        assert(s =~= s.take(m) + s.skip(m));
    } else {
        assert(!text::occurs_at(s, value, 0));
        let rest = s.skip(1);
        assert forall|i: int| 0 <= i < m - 1 implies !#[trigger] text::occurs_at(rest, value, i) by {
            if text::occurs_at(rest, value, i) {
                assert(s.subrange(i + 1, i + 1 + value.len()) =~= rest.subrange(
                    i,
                    i + value.len(),
                ));
                assert(text::occurs_at(s, value, i + 1));
            }
        }
        lemma_replaced_copies(rest, value, w, m - 1);
        assert(rest.skip(m - 1) =~= s.skip(m));
        assert(seq![s[0]] + (rest.take(m - 1) + text::replaced(s.skip(m), value, w)) =~= s.take(m)
            + text::replaced(s.skip(m), value, w));
    }
}

/// What does not occur in a text does not occur in its beginning.
proof fn lemma_absent_in_front(s: Seq<char>, value: Seq<char>, n: int, i: int)
    requires
        0 <= n <= s.len(),
        !text::occurs_at(s, value, i),
    ensures
        !text::occurs_at(s.take(n), value, i),
{
    if text::occurs_at(s.take(n), value, i) {
        assert(s.take(n).subrange(i, i + value.len()) =~= s.subrange(i, i + value.len()));
    }
}

/// No secret that is apart from the mark begins in one.
proof fn lemma_mark_keeps_out(rest: Seq<char>, q: Seq<char>, at: int)
    requires
        secrets::apart_from_marker(q),
        q.len() > 0,
        0 <= at < secrets::marker().len(),
    ensures
        !text::occurs_at(secrets::marker() + rest, q, at),
{
    let w = secrets::marker();
    let out = w + rest;
    if text::occurs_at(out, q, at) {
        reveal_strlit("[REDACTED]");
        if at + q.len() <= w.len() {
            assert(w.subrange(at, at + q.len()) =~= out.subrange(at, at + q.len()));
            assert(text::occurs_at(w, q, at));
        } else {
            assert(w[w.len() - 1] == ']');
            assert(q[w.len() - 1 - at] == out.subrange(at, at + q.len())[w.len() - 1 - at]);
            assert(q.contains(']'));
        }
    }
}

/// A cut that replacing two secrets respects is still respected by the second once
/// the first is marked.
proof fn lemma_cut_survives_marks(s: Seq<char>, p: Seq<char>, q: Seq<char>, n: int)
    requires
        p.len() > 0,
        q.len() > 0,
        apart(p, q),
        secrets::apart_from_marker(q),
        0 <= n <= s.len(),
        parts_at(s, p, n),
        parts_at(s, q, n),
    ensures
        parts_at(
            text::replaced(s, p, secrets::marker()),
            q,
            text::replaced(s.take(n), p, secrets::marker()).len() as int,
        ),
    decreases s.len(),
{
    let w = secrets::marker();
    let out = text::replaced(s, p, w);
    let front = s.take(n);
    let k = p.len() as int;
    let m = q.len() as int;
    if n == 0 {
    } else if text::occurs_at(s, p, 0) {
        let rest = s.skip(k);
        assert(front.subrange(0, k) =~= s.subrange(0, k));
        assert(front.skip(k) =~= rest.take(n - k));
        assert forall|i: int| 0 <= i < k implies !#[trigger] text::occurs_at(s, q, i) by {
            lemma_apart_keeps_out(s, p, q, i);
        }
        lemma_parts_skip(s, q, n, k);
        lemma_cut_survives_marks(rest, p, q, n - k);
        let tail = text::replaced(rest, p, w);
        assert forall|i: int| 0 <= i < w.len() implies !#[trigger] text::occurs_at(out, q, i) by {
            lemma_mark_keeps_out(tail, q, i);
        }
        assert(out.skip(w.len() as int) =~= tail);
        lemma_parts_skip(out, q, text::replaced(front, p, w).len() as int, w.len() as int);
    } else {
        lemma_absent_in_front(s, p, n, 0);
        if text::occurs_at(s, q, 0) {
            assert forall|i: int| 0 <= i < m implies !#[trigger] text::occurs_at(s, p, i) by {
                lemma_apart_keeps_out(s, q, p, i);
            }
            assert forall|i: int| 0 <= i < m implies !#[trigger] text::occurs_at(front, p, i) by {
                lemma_absent_in_front(s, p, n, i);
            }
            let rest = s.skip(m);
            lemma_replaced_copies(s, p, w, m);
            lemma_replaced_copies(front, p, w, m);
            assert(front.skip(m) =~= rest.take(n - m));
            lemma_parts_skip(s, p, n, m);
            lemma_cut_survives_marks(rest, p, q, n - m);
            assert(out.subrange(0, m) =~= s.subrange(0, m));
            assert(out.skip(m) =~= text::replaced(rest, p, w));
        } else {
            let rest = s.skip(1);
            assert(front.skip(1) =~= rest.take(n - 1));
            lemma_cut_survives_marks(rest, p, q, n - 1);
            if text::occurs_at(out, q, 0) {
                secrets::lemma_start_survives(s, p, q);
            }
            assert(out.skip(1) =~= text::replaced(rest, p, w));
        }
    }
}

/// Scanning for the end of a secret from a place inside it gets to where it stops.
proof fn lemma_parts_inside(s: Seq<char>, p: Seq<char>, q: Seq<char>, from: int, n: int)
    requires
        q.len() > 0,
        tails(p, q),
        text::occurs_at(s, p, 0),
        0 <= from <= p.len() - q.len(),
        p.len() <= n,
        parts_at(s.skip(from), q, n - from),
    ensures
        parts_at(s.skip(p.len() as int), q, n - p.len()),
    decreases p.len() - from,
{
    let rest = s.skip(from);
    let before = p.len() - q.len();
    let m = q.len() as int;
    assert(s.subrange(0, p.len() as int) == p);
    if from == before {
        assert(rest.subrange(0, m) =~= p.skip(before)) by {
            assert forall|i: int| 0 <= i < m implies rest[i] == p.skip(before)[i] by {
                assert(s.subrange(0, p.len() as int)[before + i] == s[before + i]);
            }
        }
        assert(text::occurs_at(rest, q, 0));
        assert(rest.skip(m) =~= s.skip(p.len() as int));
    } else if text::occurs_at(rest, q, 0) {
        assert(p.subrange(from, from + m) =~= rest.subrange(0, m)) by {
            assert forall|i: int| 0 <= i < m implies p[from + i] == rest[i] by {
                assert(s.subrange(0, p.len() as int)[from + i] == s[from + i]);
            }
        }
        assert(text::occurs_at(p, q, from));
        assert(rest.skip(m) =~= s.skip(from + m));
        lemma_parts_inside(s, p, q, from + m, n);
    } else {
        assert(rest.skip(1) =~= s.skip(from + 1));
        lemma_parts_inside(s, p, q, from + 1, n);
    }
}

/// Where a secret comes next, what stands before it is copied and it is marked.
proof fn lemma_next_is_marked(s: Seq<char>, p: Seq<char>, w: Seq<char>, at: int)
    requires
        p.len() > 0,
        0 <= at,
        text::occurs_at(s, p, at),
        forall|i: int| 0 <= i < at ==> !#[trigger] text::occurs_at(s, p, i),
    ensures
        text::replaced(s, p, w) == s.take(at) + w + text::replaced(s.skip(at + p.len()), p, w),
{
    let rest = s.skip(at);
    lemma_replaced_copies(s, p, w, at);
    assert(rest.subrange(0, p.len() as int) =~= s.subrange(at, at + p.len()));
    assert(rest.skip(p.len() as int) =~= s.skip(at + p.len()));
    assert(s.take(at) + (w + text::replaced(s.skip(at + p.len()), p, w)) =~= s.take(at) + w
        + text::replaced(s.skip(at + p.len()), p, w));
}

/// A secret that begins before a mark does not reach into it.
proof fn lemma_stops_at_mark(front: Seq<char>, rest: Seq<char>, q: Seq<char>, at: int)
    requires
        secrets::apart_from_marker(q),
        front.len() < q.len(),
        0 <= at < front.len() + secrets::marker().len(),
    ensures
        !text::occurs_at(front + secrets::marker() + rest, q, at),
{
    let w = secrets::marker();
    let out = front + w + rest;
    if text::occurs_at(out, q, at) {
        reveal_strlit("[REDACTED]");
        if at < front.len() {
            let i = front.len() - at;
            assert(out[front.len() as int] == '[');
            assert(q[i] == out.subrange(at, at + q.len())[i]);
            assert(q.contains('['));
        } else {
            let behind = w + rest;
            assert(behind.subrange(at - front.len(), at - front.len() + q.len()) =~= out.subrange(
                at,
                at + q.len(),
            ));
            lemma_mark_keeps_out(rest, q, at - front.len());
        }
    }
}

/// A cut that replacing a secret and its end respects is still respected by the end
/// once the whole is marked.
proof fn lemma_cut_survives_tail(s: Seq<char>, p: Seq<char>, q: Seq<char>, n: int)
    requires
        q.len() > 0,
        tails(p, q),
        secrets::apart_from_marker(q),
        0 <= n <= s.len(),
        parts_at(s, p, n),
        parts_at(s, q, n),
    ensures
        parts_at(
            text::replaced(s, p, secrets::marker()),
            q,
            text::replaced(s.take(n), p, secrets::marker()).len() as int,
        ),
    decreases s.len(),
{
    let w = secrets::marker();
    let out = text::replaced(s, p, w);
    let front = s.take(n);
    let k = p.len() as int;
    let m = q.len() as int;
    if n == 0 {
    } else if text::occurs_at(s, p, 0) {
        let rest = s.skip(k);
        assert(front.subrange(0, k) =~= s.subrange(0, k));
        assert(front.skip(k) =~= rest.take(n - k));
        assert(s.skip(0) =~= s);
        lemma_parts_inside(s, p, q, 0, n);
        lemma_cut_survives_tail(rest, p, q, n - k);
        let tail = text::replaced(rest, p, w);
        assert forall|i: int| 0 <= i < w.len() implies !#[trigger] text::occurs_at(out, q, i) by {
            lemma_mark_keeps_out(tail, q, i);
        }
        assert(out.skip(w.len() as int) =~= tail);
        lemma_parts_skip(out, q, text::replaced(front, p, w).len() as int, w.len() as int);
    } else if text::occurs_at(s, q, 0) {
        lemma_absent_in_front(s, p, n, 0);
        text::lemma_find_from(s, p, 1);
        let next = text::find_from(s, p, 1);
        if next is Some && next->0 < m {
            let at = next->0;
            assert forall|i: int| 0 <= i < at implies !#[trigger] text::occurs_at(s, p, i) by {}
            lemma_parts_skip(s, p, n, at);
            let inner = s.skip(at);
            assert(inner.subrange(0, k) =~= s.subrange(at, at + k));
            assert(text::occurs_at(inner, p, 0));
            assert(at + k <= n);
            assert(q.len() - at <= p.len() - q.len()) by {
                let overlap = m - at;
                assert(p.subrange(0, overlap) =~= q.skip(at)) by {
                    assert forall|i: int| 0 <= i < overlap implies p[i] == q.skip(at)[i] by {
                        assert(inner.subrange(0, k)[i] == s[at + i]);
                        assert(s.subrange(0, m)[at + i] == s[at + i]);
                    }
                }
                assert(text::starts_with(p, q.skip(at)));
            }
            assert(inner.skip(m - at) =~= s.skip(m));
            lemma_parts_inside(inner, p, q, m - at, n - at);
            assert(inner.skip(k) =~= s.skip(at + k));
            let rest = s.skip(at + k);
            lemma_cut_survives_tail(rest, p, q, n - at - k);
            lemma_next_is_marked(s, p, w, at);
            assert(front.subrange(at, at + k) =~= s.subrange(at, at + k));
            assert forall|i: int| 0 <= i < at implies !#[trigger] text::occurs_at(front, p, i) by {
                lemma_absent_in_front(s, p, n, i);
            }
            lemma_next_is_marked(front, p, w, at);
            assert(front.skip(at + k) =~= rest.take(n - at - k));
            let head = s.take(at);
            assert(front.take(at) =~= head);
            let tail = text::replaced(rest, p, w);
            let past = at + w.len();
            assert forall|i: int| 0 <= i < past implies !#[trigger] text::occurs_at(out, q, i) by {
                lemma_stops_at_mark(head, tail, q, i);
            }
            assert(out.skip(past) =~= tail);
            lemma_parts_skip(out, q, text::replaced(front, p, w).len() as int, past);
        } else {
            assert forall|i: int| 0 <= i < m implies !#[trigger] text::occurs_at(s, p, i) by {}
            assert forall|i: int| 0 <= i < m implies !#[trigger] text::occurs_at(front, p, i) by {
                lemma_absent_in_front(s, p, n, i);
            }
            let rest = s.skip(m);
            lemma_replaced_copies(s, p, w, m);
            lemma_replaced_copies(front, p, w, m);
            assert(front.skip(m) =~= rest.take(n - m));
            lemma_parts_skip(s, p, n, m);
            lemma_cut_survives_tail(rest, p, q, n - m);
            assert(out.subrange(0, m) =~= s.subrange(0, m));
            assert(out.skip(m) =~= text::replaced(rest, p, w));
        }
    } else {
        lemma_absent_in_front(s, p, n, 0);
        let rest = s.skip(1);
        assert(front.skip(1) =~= rest.take(n - 1));
        lemma_cut_survives_tail(rest, p, q, n - 1);
        if text::occurs_at(out, q, 0) {
            secrets::lemma_start_survives(s, p, q);
        }
        assert(out.skip(1) =~= text::replaced(rest, p, w));
    }
}

/// A cut is respected by what does not occur.
proof fn lemma_absent_parts(s: Seq<char>, value: Seq<char>, n: int)
    requires
        value.len() > 0,
        !text::contains(s, value),
    ensures
        parts_at(s, value, n),
    decreases s.len(),
{
    if n > 0 && s.len() > 0 {
        assert(!text::occurs_at(s, value, 0));
        let rest = s.skip(1);
        assert(!text::contains(rest, value)) by {
            if text::contains(rest, value) {
                let i = choose|i: int| text::occurs_at(rest, value, i);
                assert(s.subrange(i + 1, i + 1 + value.len()) =~= rest.subrange(
                    i,
                    i + value.len(),
                ));
                assert(text::occurs_at(s, value, i + 1));
            }
        }
        lemma_absent_parts(rest, value, n - 1);
    }
}

/// Secrets of a list of which each can be marked before those behind it, and which are
/// apart from the mark.
spec fn sorted_out(list: Seq<Seq<char>>) -> bool {
    &&& forall|i: int|
        0 <= i < list.len() ==> (#[trigger] list[i]).len() > 0 && secrets::apart_from_marker(
            list[i],
        )
    &&& forall|i: int, j: int|
        0 <= i < j < list.len() ==> goes_before(#[trigger] list[i], #[trigger] list[j])
}

proof fn lemma_marked_in_parts(a: Seq<char>, b: Seq<char>, list: Seq<Seq<char>>, q: Seq<char>)
    requires
        sorted_out(list),
        forall|i: int| 0 <= i < list.len() ==> parts_at(a + b, #[trigger] list[i], a.len() as int),
        q.len() > 0,
        secrets::apart_from_marker(q),
        forall|i: int| 0 <= i < list.len() ==> goes_before(#[trigger] list[i], q),
        parts_at(a + b, q, a.len() as int),
    ensures
        secrets::marked(a + b, list) == secrets::marked(a, list) + secrets::marked(b, list),
        parts_at(secrets::marked(a + b, list), q, secrets::marked(a, list).len() as int),
    decreases list.len(),
{
    if list.len() > 0 {
        let before = list.drop_last();
        let value = list.last();
        let w = secrets::marker();
        assert forall|i: int| 0 <= i < before.len() implies parts_at(
            a + b,
            #[trigger] before[i],
            a.len() as int,
        ) by {
            assert(before[i] == list[i]);
        }
        assert forall|i: int| 0 <= i < before.len() implies goes_before(#[trigger] before[i], q) by {
            assert(before[i] == list[i]);
        }
        assert forall|i: int| 0 <= i < before.len() implies goes_before(
            #[trigger] before[i],
            value,
        ) by {
            assert(before[i] == list[i]);
            assert(value == list[list.len() - 1]);
        }
        assert(parts_at(a + b, list[list.len() - 1], a.len() as int));
        assert(sorted_out(before));
        lemma_marked_in_parts(a, b, before, value);
        lemma_marked_in_parts(a, b, before, q);
        let left = secrets::marked(a, before);
        let right = secrets::marked(b, before);
        lemma_replaced_in_parts(left, right, value, w);
        assert((left + right).take(left.len() as int) =~= left);
        if q == value {
            secrets::lemma_marks_give_nothing_back(left + right, value, q);
            lemma_absent_parts(
                text::replaced(left + right, value, w),
                q,
                text::replaced(left, value, w).len() as int,
            );
        } else {
            assert(goes_before(list[list.len() - 1], q));
            if tails(value, q) {
                lemma_cut_survives_tail(left + right, value, q, left.len() as int);
            } else {
                lemma_cut_survives_marks(left + right, value, q, left.len() as int);
            }
        }
    }
}

proof fn lemma_tail_is_shorter(p: Seq<char>, q: Seq<char>)
    requires
        tails(p, q),
    ensures
        text::byte_len(q) < text::byte_len(p),
{
    let front = p.take(p.len() - q.len());
    assert(p =~= front + q);
    text::lemma_byte_len_add(front, q);
    text::lemma_byte_len_at_least(front);
}

proof fn lemma_held_covers(input: Seq<char>, values: Seq<Seq<char>>, i: int)
    requires
        0 <= i < values.len(),
    ensures
        longest_start(input, values[i], values[i].len() - 1) <= held(input, values),
    decreases values.len(),
{
    if i < values.len() - 1 {
        lemma_held_covers(input, values.drop_last(), i);
    }
}

/// What is shown of a text and what the kept rest gives with all that follows is
/// what the whole would have given: nothing of a secret gets through where it is
/// spread over several pieces, and nothing else is lost.
pub proof fn law_pieces_are_redacted_as_the_whole(
    input: Seq<char>,
    values: Seq<Seq<char>>,
    more: Seq<char>,
)
    requires
        unmixed(values),
    ensures
        ({
            let n = safe_split(input, values);
            secrets::redacted(input + more, values) == secrets::redacted(input.take(n), values)
                + secrets::redacted(input.skip(n) + more, values)
        }),
{
    let n = safe_split(input, values);
    let a = input.take(n);
    let b = input.skip(n) + more;
    lemma_safe_split(input, values);
    lemma_held(input, values);
    assert(input + more =~= a + b);
    assert forall|i: int| 0 <= i < values.len() implies parts_at(a + b, #[trigger] values[i], n) by {
        law_no_secret_is_cut(input, values, i);
        lemma_held_covers(input, values, i);
        lemma_cut_parts(input, more, values[i], 0, n);
        assert((input + more).skip(0) =~= input + more);
    }
    if values.len() == 1 {
        let value = values[0];
        assert(values =~= seq![value]);
        lemma_replaced_in_parts(a, b, value, secrets::marker());
        lemma_one_secret(a + b, value);
        lemma_one_secret(a, value);
        lemma_one_secret(b, value);
    } else if values.len() == 0 {
        assert(secrets::by_length(values) =~= Seq::empty());
        assert(secrets::thinned(secrets::by_length(values)) =~= Seq::empty());
    } else {
        let list = secrets::thinned(secrets::by_length(values));
        secrets::lemma_by_length_members(values);
        secrets::lemma_thinned_members(secrets::by_length(values));
        assert forall|i: int| 0 <= i < list.len() implies values.contains(#[trigger] list[i]) by {
            assert(list.contains(list[i]));
            assert(secrets::by_length(values).contains(list[i]));
        }
        assert forall|i: int| 0 <= i < list.len() implies (#[trigger] list[i]).len() > 0
            && secrets::apart_from_marker(list[i]) && parts_at(a + b, list[i], n) by {
            assert(values.contains(list[i]));
            let x = choose|x: int| 0 <= x < values.len() && values[x] == list[i];
            let y = if x == 0 {
                1int
            } else {
                0
            };
            assert(values[x] == list[i] && values[y].len() > 0);
        }
        secrets::lemma_longest_first(values);
        assert forall|i: int, j: int| 0 <= i < j < list.len() implies goes_before(
            #[trigger] list[i],
            #[trigger] list[j],
        ) by {
            assert(values.contains(list[i]) && values.contains(list[j]));
            let x = choose|x: int| 0 <= x < values.len() && values[x] == list[i];
            let y = choose|y: int| 0 <= y < values.len() && values[y] == list[j];
            if x != y {
                assert(values[x] == list[i] && values[y] == list[j]);
                if tails(list[j], list[i]) {
                    lemma_tail_is_shorter(list[j], list[i]);
                }
            }
        }
        if list.len() > 0 {
            let last = list.last();
            assert forall|i: int| 0 <= i < list.len() implies goes_before(#[trigger] list[i], last) by {
                if i < list.len() - 1 {
                    assert(goes_before(list[i], list[list.len() - 1]));
                }
            }
            assert(parts_at(a + b, list[list.len() - 1], n));
            lemma_marked_in_parts(a, b, list, last);
        }
    }
}

fn ends_in_start(input: &Vec<char>, value: &Vec<char>, k: usize) -> (r: bool)
    requires
        k <= value@.len(),
    ensures
        r == text::ends_with(input@, value@.take(k as int)),
{
    if k > input.len() {
        return false;
    }
    let start: usize = input.len() - k;
    let mut j: usize = 0;
    while j < k
        invariant
            j <= k <= value@.len(),
            start + k == input.len(),
            forall|i: int| 0 <= i < j ==> input@[start + i] == value@[i],
        decreases k - j,
    {
        if input[start + j] != value[j] {
            assert(input@.subrange(start as int, start + k)[j as int] != value@.take(
                k as int,
            )[j as int]);
            return false;
        }
        j = j + 1;
    }
    assert(input@.subrange(start as int, start + k) =~= value@.take(k as int));
    true
}

fn longest_start_of(input: &Vec<char>, value: &Vec<char>) -> (r: usize)
    ensures
        r == longest_start(input@, value@, value@.len() - 1),
{
    if value.len() == 0 {
        return 0;
    }
    let mut k: usize = value.len() - 1;
    while k > 0 && !ends_in_start(input, value, k)
        invariant
            k < value@.len(),
            longest_start(input@, value@, k as int) == longest_start(
                input@,
                value@,
                value@.len() - 1,
            ),
        decreases k,
    {
        k = k - 1;
    }
    k
}

fn straddling_of(input: &Vec<char>, value: &Vec<char>, split: usize) -> (r: Option<usize>)
    ensures
        (match r {
            Some(start) => straddling(input@, value@, 0, split as int) == Some(start as int),
            None => straddling(input@, value@, 0, split as int) is None,
        }),
{
    if value.len() == 0 {
        return None;
    }
    let mut from: usize = 0;
    while from < input.len()
        invariant
            from <= input@.len(),
            value@.len() > 0,
            straddling(input@, value@, from as int, split as int) == straddling(
                input@,
                value@,
                0,
                split as int,
            ),
        decreases input@.len() - from,
    {
        match text::find_at(input, value, from) {
            Some(start) => {
                if start >= split {
                    return None;
                }
                if split - start < value.len() {
                    return Some(start);
                }
                from = start + value.len();
            },
            None => return None,
        }
    }
    None
}

/// How many characters of a text can be shown before the rest of the stream is
/// known.
pub fn safe_provider_stream_split(input: &Vec<char>, values: &Vec<String>) -> (r: usize)
    ensures
        r == safe_split(input@, text::texts(values@)),
        r <= input@.len(),
{
    let ghost all = text::texts(values@);
    proof {
        lemma_safe_split(input@, all);
        lemma_held(input@, all);
    }
    let mut kept: usize = 0;
    let mut i: usize = 0;
    assert(held(input@, all.take(0)) == 0);
    while i < values.len()
        invariant
            i <= values.len(),
            all == text::texts(values@),
            kept == held(input@, all.take(i as int)),
        decreases values.len() - i,
    {
        let value = text::chars_of(values[i].as_str());
        let here: usize = longest_start_of(input, &value);
        assert(all.take(i + 1).drop_last() =~= all.take(i as int));
        assert(all.take(i + 1).last() == values@[i as int]@);
        if here > kept {
            kept = here;
        }
        i = i + 1;
    }
    assert(all.take(all.len() as int) =~= all);
    let mut split: usize = input.len() - kept;
    loop
        invariant
            all == text::texts(values@),
            split <= input@.len(),
            settled_split(input@, all, split as int) == safe_split(input@, all),
        ensures
            split <= input@.len(),
            split == safe_split(input@, all),
        decreases split,
    {
        let mut found: Option<usize> = None;
        let mut j: usize = 0;
        assert(first_straddling(input@, all.take(0), split as int) is None);
        while j < values.len()
            invariant
                j <= values.len(),
                all == text::texts(values@),
                (match found {
                    Some(start) => first_straddling(input@, all.take(j as int), split as int)
                        == Some(start as int),
                    None => first_straddling(input@, all.take(j as int), split as int) is None,
                }),
            decreases values.len() - j,
        {
            let value = text::chars_of(values[j].as_str());
            let here = straddling_of(input, &value, split);
            assert(all.take(j + 1).drop_last() =~= all.take(j as int));
            assert(all.take(j + 1).last() == values@[j as int]@);
            found = match (found, here) {
                (Some(a), Some(b)) => Some(
                    if b < a {
                        b
                    } else {
                        a
                    },
                ),
                (Some(a), None) => Some(a),
                (None, b) => b,
            };
            j = j + 1;
        }
        assert(all.take(all.len() as int) =~= all);
        proof {
            lemma_first_straddling(input@, all, split as int);
        }
        match found {
            Some(start) => {
                split = start;
            },
            None => {
                break;
            },
        }
    }
    split
}

/// Adds to a waiting text and takes from it what can be shown; all of it where
/// nothing follows.
pub fn take_redacted_event_chunk(
    pending: &mut String,
    delta: &str,
    sensitive_values: &Vec<String>,
    flush: bool,
) -> (r: String)
    ensures
        ({
            let all = old(pending)@ + delta@;
            let values = text::texts(sensitive_values@);
            let n = if flush {
                all.len() as int
            } else {
                safe_split(all, values)
            };
            &&& r@ == secrets::redacted(all.take(n), values)
            &&& final(pending)@ == all.skip(n)
        }),
{
    pending.append(delta);
    let chars = text::chars_of(pending.as_str());
    let split: usize = if flush {
        chars.len()
    } else {
        safe_provider_stream_split(&chars, sensitive_values)
    };
    let tail = text::string_of(&chars, split, chars.len());
    let head = text::string_of(&chars, 0, split);
    assert(head@ =~= chars@.take(split as int));
    assert(tail@ =~= chars@.skip(split as int));
    *pending = tail;
    secrets::redact_values(head.as_str(), sensitive_values)
}

/// A filter for the events of a stream.
pub struct ProviderEventRedactor {
    pub sensitive_values: Vec<String>,
    pub tool_pending: Vec<ProviderEvent>,
    pub error: Option<ProviderError>,
    pub text_pending: String,
    pub reasoning_pending: String,
}

#[verifier::ext_equal]
pub struct RedactorView {
    pub values: Seq<Seq<char>>,
    pub tools: Seq<StreamView>,
    pub error: Option<ErrorView>,
    pub text: Seq<char>,
    pub reasoning: Seq<char>,
}

impl View for ProviderEventRedactor {
    type V = RedactorView;

    open spec fn view(&self) -> RedactorView {
        RedactorView {
            values: text::texts(self.sensitive_values@),
            tools: types::stream_views(self.tool_pending@),
            error: match self.error {
                Some(e) => Some(e@),
                None => None,
            },
            text: self.text_pending@,
            reasoning: self.reasoning_pending@,
        }
    }
}

/// An event with a text, where there is one.
pub open spec fn text_out(ready: Seq<char>) -> Seq<StreamView> {
    if ready.len() > 0 {
        seq![StreamView::TextDelta(ready)]
    } else {
        Seq::empty()
    }
}

/// An event with reasoning, where there is any.
pub open spec fn reasoning_out(ready: Seq<char>) -> Seq<StreamView> {
    if ready.len() > 0 {
        seq![StreamView::ReasoningDelta(ready)]
    } else {
        Seq::empty()
    }
}

/// The events that belong to tool calls, which wait for the end.
pub open spec fn is_tool_event(event: StreamView) -> bool {
    match event {
        StreamView::ToolCallDelta { .. } => true,
        StreamView::ToolCallComplete { .. } => true,
        StreamView::ToolCallStart { .. } => true,
        StreamView::ToolCallInputDelta { .. } => true,
        StreamView::ContentBlockStop { .. } => true,
        StreamView::ToolCall { .. } => true,
        _ => false,
    }
}

/// What is said of a tool call that holds a secret.
pub open spec fn leak_words() -> Seq<char> {
    "tool call contains registered sensitive material; use a configured credential reference"@
}

impl RedactorView {
    pub open spec fn without_text(self) -> RedactorView {
        RedactorView { text: Seq::empty(), ..self }
    }

    pub open spec fn without_reasoning(self) -> RedactorView {
        RedactorView { reasoning: Seq::empty(), ..self }
    }

    pub open spec fn waiting_text(self) -> Seq<StreamView> {
        text_out(secrets::redacted(self.text, self.values))
    }

    pub open spec fn waiting_reasoning(self) -> Seq<StreamView> {
        reasoning_out(secrets::redacted(self.reasoning, self.values))
    }

    /// Whether the waiting tool calls hold a secret.
    pub open spec fn leaks(self) -> bool {
        runtime::calls_leak(self.tools, self.values)
    }

    /// What an event makes of the filter and what it lets through.
    pub open spec fn stepped(self, event: StreamView) -> (RedactorView, Seq<StreamView>) {
        match event {
            StreamView::TextDelta(s) => {
                let all = self.text + s;
                let n = safe_split(all, self.values);
                (
                    RedactorView { text: all.skip(n), ..self.without_reasoning() },
                    self.waiting_reasoning() + text_out(
                        secrets::redacted(all.take(n), self.values),
                    ),
                )
            },
            StreamView::ReasoningDelta(s) => {
                let all = self.reasoning + s;
                let n = safe_split(all, self.values);
                (
                    RedactorView { reasoning: all.skip(n), ..self.without_text() },
                    self.waiting_text() + reasoning_out(
                        secrets::redacted(all.take(n), self.values),
                    ),
                )
            },
            StreamView::ReasoningStarted => (
                self.without_text(),
                self.waiting_text().push(event),
            ),
            StreamView::ReasoningEnded => (
                self.without_reasoning(),
                self.waiting_reasoning().push(event),
            ),
            StreamView::Stopped { reason } => (
                RedactorView {
                    tools: Seq::empty(),
                    error: if self.leaks() {
                        Some(ErrorView::InvalidResponse { message: leak_words() })
                    } else {
                        self.error
                    },
                    text: Seq::empty(),
                    reasoning: Seq::empty(),
                    ..self
                },
                ((if self.leaks() {
                    Seq::empty()
                } else {
                    self.tools
                }) + self.waiting_text() + self.waiting_reasoning()).push(
                    StreamView::Stopped { reason: secrets::redacted(reason, self.values) },
                ),
            ),
            _ => if is_tool_event(event) {
                (
                    RedactorView { tools: self.tools.push(event), ..self.without_reasoning() },
                    self.waiting_reasoning(),
                )
            } else {
                (self, seq![event])
            },
        }
    }
}

impl ProviderEventRedactor {
    /// A filter for the given secrets.
    pub fn new(sensitive_values: Vec<String>) -> (r: ProviderEventRedactor)
        ensures
            r@ == (RedactorView {
                values: secrets::normal_secrets(text::texts(sensitive_values@)),
                tools: Seq::empty(),
                error: None,
                text: Seq::empty(),
                reasoning: Seq::empty(),
            }),
    {
        let r = ProviderEventRedactor {
            sensitive_values: secrets::normalize_sensitive_values(&sensitive_values),
            tool_pending: Vec::new(),
            error: None,
            text_pending: String::new(),
            reasoning_pending: String::new(),
        };
        assert(r@.tools =~= Seq::empty());
        r
    }

    fn flush_text(&mut self, output: &mut Vec<ProviderEvent>)
        ensures
            final(self)@ == old(self)@.without_text(),
            types::stream_views(final(output)@) == types::stream_views(old(output)@)
                + old(self)@.waiting_text(),
    {
        let ghost start = output@;
        let ghost pending = self.text_pending@;
        let ready = take_redacted_event_chunk(
            &mut self.text_pending,
            "",
            &self.sensitive_values,
            true,
        );
        proof {
            reveal_strlit("");
            assert(pending + ""@ =~= pending);
            assert(pending.take(pending.len() as int) =~= pending);
            assert(pending.skip(pending.len() as int) =~= Seq::empty());
        }
        let ghost shown = ready@;
        if !ready.as_str().is_empty() {
            output.push(ProviderEvent::TextDelta(ready));
        }
        assert(types::stream_views(output@) =~= types::stream_views(start) + text_out(shown));
    }

    fn flush_reasoning(&mut self, output: &mut Vec<ProviderEvent>)
        ensures
            final(self)@ == old(self)@.without_reasoning(),
            types::stream_views(final(output)@) == types::stream_views(old(output)@)
                + old(self)@.waiting_reasoning(),
    {
        let ghost start = output@;
        let ghost pending = self.reasoning_pending@;
        let ready = take_redacted_event_chunk(
            &mut self.reasoning_pending,
            "",
            &self.sensitive_values,
            true,
        );
        proof {
            reveal_strlit("");
            assert(pending + ""@ =~= pending);
            assert(pending.take(pending.len() as int) =~= pending);
            assert(pending.skip(pending.len() as int) =~= Seq::empty());
        }
        let ghost shown = ready@;
        if !ready.as_str().is_empty() {
            output.push(ProviderEvent::ReasoningDelta(ready));
        }
        assert(types::stream_views(output@) =~= types::stream_views(start) + reasoning_out(shown));
    }

    /// Takes an event in and gives what can be shown. The tool calls of a stream
    /// wait until it stops, and come out then unless they hold a secret.
    pub fn push(&mut self, event: ProviderEvent) -> (output: Vec<ProviderEvent>)
        ensures
            (final(self)@, types::stream_views(output@)) == old(self)@.stepped(event@),
    {
        let ghost before = self@;
        let mut output: Vec<ProviderEvent> = Vec::new();
        assert(types::stream_views(output@) =~= Seq::empty());
        match event {
            ProviderEvent::TextDelta(s) => {
                self.flush_reasoning(&mut output);
                let ready = take_redacted_event_chunk(
                    &mut self.text_pending,
                    s.as_str(),
                    &self.sensitive_values,
                    false,
                );
                let ghost start = output@;
                let ghost shown = ready@;
                if !ready.as_str().is_empty() {
                    output.push(ProviderEvent::TextDelta(ready));
                }
                assert(types::stream_views(output@) =~= types::stream_views(start) + text_out(
                    shown,
                ));
                assert(types::stream_views(output@) =~= before.waiting_reasoning() + text_out(
                    shown,
                ));
            },
            ProviderEvent::ReasoningDelta(s) => {
                self.flush_text(&mut output);
                let ready = take_redacted_event_chunk(
                    &mut self.reasoning_pending,
                    s.as_str(),
                    &self.sensitive_values,
                    false,
                );
                let ghost start = output@;
                let ghost shown = ready@;
                if !ready.as_str().is_empty() {
                    output.push(ProviderEvent::ReasoningDelta(ready));
                }
                assert(types::stream_views(output@) =~= types::stream_views(start)
                    + reasoning_out(shown));
                assert(types::stream_views(output@) =~= before.waiting_text() + reasoning_out(
                    shown,
                ));
            },
            ProviderEvent::ReasoningStarted => {
                self.flush_text(&mut output);
                output.push(ProviderEvent::ReasoningStarted);
                assert(types::stream_views(output@) =~= before.waiting_text().push(
                    StreamView::ReasoningStarted,
                ));
            },
            ProviderEvent::ReasoningEnded => {
                self.flush_reasoning(&mut output);
                output.push(ProviderEvent::ReasoningEnded);
                assert(types::stream_views(output@) =~= before.waiting_reasoning().push(
                    StreamView::ReasoningEnded,
                ));
            },
            ProviderEvent::Stopped { reason } => {
                let mut pending: Vec<ProviderEvent> = Vec::new();
                std::mem::swap(&mut pending, &mut self.tool_pending);
                let ghost waiting = types::stream_views(pending@);
                let tools_leak = runtime::tool_events_contain_sensitive_values(
                    &pending,
                    &self.sensitive_values,
                );
                if tools_leak {
                    self.error = Some(
                        ProviderError::InvalidResponse {
                            message:
                                "tool call contains registered sensitive material; use a configured credential reference".to_owned(),
                        },
                    );
                } else {
                    output.append(&mut pending);
                }
                let ghost kept = if tools_leak {
                    Seq::empty()
                } else {
                    waiting
                };
                assert(types::stream_views(output@) =~= kept);
                assert(self@.tools =~= Seq::empty());
                self.flush_text(&mut output);
                self.flush_reasoning(&mut output);
                let clean = secrets::redact_values(reason.as_str(), &self.sensitive_values);
                let ghost shown = StreamView::Stopped { reason: clean@ };
                output.push(ProviderEvent::Stopped { reason: clean });
                assert(types::stream_views(output@) =~= (kept + before.waiting_text()
                    + before.waiting_reasoning()).push(shown));
            },
            other => {
                let is_tool = match &other {
                    ProviderEvent::ToolCallDelta { .. } => true,
                    ProviderEvent::ToolCallComplete { .. } => true,
                    ProviderEvent::ToolCallStart { .. } => true,
                    ProviderEvent::ToolCallInputDelta { .. } => true,
                    ProviderEvent::ContentBlockStop { .. } => true,
                    ProviderEvent::ToolCall { .. } => true,
                    _ => false,
                };
                if is_tool {
                    self.flush_reasoning(&mut output);
                    let ghost tools = self.tool_pending@;
                    let ghost shown = other@;
                    self.tool_pending.push(other);
                    assert(types::stream_views(self.tool_pending@) =~= types::stream_views(
                        tools,
                    ).push(shown));
                    assert(types::stream_views(output@) =~= before.waiting_reasoning());
                } else {
                    let ghost shown = other@;
                    output.push(other);
                    assert(types::stream_views(output@) =~= seq![shown]);
                }
            },
        }
        output
    }
}

/// Whether one of some events belongs to a tool call.
pub open spec fn has_tool_event(events: Seq<StreamView>) -> bool {
    exists|i: int| 0 <= i < events.len() && is_tool_event(#[trigger] events[i])
}

/// Tool calls wait for the stream to stop: before that none comes out.
pub proof fn law_tool_calls_wait(redactor: RedactorView, event: StreamView)
    requires
        !(event is Stopped),
    ensures
        !has_tool_event(redactor.stepped(event).1),
{
}

/// No piece of a secret reaches the one who runs tools: when a stream stops, its
/// tool calls come out only where none of them holds a secret, in one event or in
/// the pieces of one call; else none comes out, and the stream has failed.
pub proof fn law_leaking_calls_are_withheld(redactor: RedactorView, reason: Seq<char>)
    ensures
        ({
            let (after, shown) = redactor.stepped(StreamView::Stopped { reason });
            &&& runtime::calls_leak(redactor.tools, redactor.values) ==> !has_tool_event(shown)
                && after.error == Some(ErrorView::InvalidResponse { message: leak_words() })
            &&& !runtime::calls_leak(redactor.tools, redactor.values) ==> shown.take(
                redactor.tools.len() as int,
            ) == redactor.tools && !has_tool_event(shown.skip(redactor.tools.len() as int))
        }),
{
    let (_, shown) = redactor.stepped(StreamView::Stopped { reason });
    if !redactor.leaks() {
        assert(shown.take(redactor.tools.len() as int) =~= redactor.tools);
    }
}

/// A key without blanks may stand beside the header that carries it: a request with a
/// bearer token is redacted as the whole, however its answer is cut into pieces.
pub proof fn law_bearer_and_key_are_unmixed(key: Seq<char>)
    requires
        key.len() > 0,
        !key.contains(' '),
        secrets::apart_from_marker(key),
    ensures
        unmixed(seq!["Bearer "@ + key, key]),
{
    reveal_strlit("Bearer ");
    reveal_strlit("[REDACTED]");
    let header = "Bearer "@ + key;
    let w = secrets::marker();
    assert(header.skip(7) =~= key);
    assert(header[6] == ' ');
    assert forall|i: int| 0 <= i < 7 && #[trigger] text::occurs_at(header, key, i) implies i
        + key.len() <= 7 by {
        if i + key.len() > 7 {
            if i < 7 {
                assert(key[6 - i] == header.subrange(i, i + key.len())[6 - i]);
                assert(key.contains(' '));
            }
        }
    }
    assert forall|k: int|
        0 < k < key.len() && text::starts_with(header, #[trigger] key.skip(k)) implies key.len() - k
        <= 7 by {
        let end = key.skip(k);
        if key.len() - k > 7 {
            assert(end[6] == header.subrange(0, end.len() as int)[6]);
            assert(key[k + 6] == ' ');
        }
    }
    assert(tails(header, key));
    assert forall|i: int| 0 <= i < header.len() implies header[i] != '[' && header[i] != ']' by {
        if i >= 7 {
            assert(key.contains(key[i - 7]));
        }
    }
    assert(!text::contains(w, header)) by {
        if text::contains(w, header) {
            let i = choose|i: int| text::occurs_at(w, header, i);
            assert(w[i] == w.subrange(i, i + header.len())[0]);
            assert(w[i + 1] == w.subrange(i, i + header.len())[1]);
            assert(w[i + 6] == w.subrange(i, i + header.len())[6]);
        }
    }
    assert(secrets::apart_from_marker(header));
}

/// The text that events show.
pub open spec fn text_of(events: Seq<StreamView>) -> Seq<char>
    decreases events.len(),
{
    if events.len() == 0 {
        Seq::empty()
    } else {
        text_of(events.drop_last()) + (match events.last() {
            StreamView::TextDelta(s) => s,
            _ => Seq::empty(),
        })
    }
}

/// All pieces in one.
pub open spec fn whole_of(pieces: Seq<Seq<char>>) -> Seq<char>
    decreases pieces.len(),
{
    if pieces.len() == 0 {
        Seq::empty()
    } else {
        pieces[0] + whole_of(pieces.drop_first())
    }
}

impl RedactorView {
    /// What pieces of text make of the filter, one after the other, and what they
    /// let through.
    pub open spec fn fed(self, pieces: Seq<Seq<char>>) -> (RedactorView, Seq<StreamView>)
        decreases pieces.len(),
    {
        if pieces.len() == 0 {
            (self, Seq::empty())
        } else {
            let (next, shown) = self.stepped(StreamView::TextDelta(pieces[0]));
            let (end, later) = next.fed(pieces.drop_first());
            (end, shown + later)
        }
    }
}

proof fn lemma_text_of_parts(a: Seq<StreamView>, b: Seq<StreamView>)
    ensures
        text_of(a + b) == text_of(a) + text_of(b),
    decreases b.len(),
{
    if b.len() == 0 {
        assert(a + b =~= a);
        assert(text_of(a) + text_of(b) =~= text_of(a));
    } else {
        assert((a + b).drop_last() =~= a + b.drop_last());
        lemma_text_of_parts(a, b.drop_last());
        assert(text_of(a + b) =~= text_of(a) + text_of(b));
    }
}

proof fn lemma_no_text(events: Seq<StreamView>)
    requires
        forall|i: int| 0 <= i < events.len() ==> !((#[trigger] events[i]) is TextDelta),
    ensures
        text_of(events) == Seq::<char>::empty(),
    decreases events.len(),
{
    if events.len() > 0 {
        lemma_no_text(events.drop_last());
        assert(text_of(events) =~= Seq::empty());
    }
}

proof fn lemma_text_out(ready: Seq<char>)
    ensures
        text_of(text_out(ready)) == ready,
{
    let out = text_out(ready);
    if out.len() > 0 {
        assert(out.drop_last() =~= Seq::empty());
        assert(text_of(out.drop_last()) =~= Seq::empty());
        assert(text_of(out) =~= ready);
    } else {
        assert(text_of(out) =~= ready);
    }
}

/// However a text is cut into pieces, the stream shows of it, once it has stopped,
/// what taking the secrets out of the whole gives.
pub proof fn law_a_stream_is_redacted_as_the_whole(
    redactor: RedactorView,
    pieces: Seq<Seq<char>>,
    reason: Seq<char>,
)
    requires
        unmixed(redactor.values),
        forall|i: int| 0 <= i < redactor.tools.len() ==> is_tool_event(#[trigger] redactor.tools[i]),
    ensures
        ({
            let (end, shown) = redactor.fed(pieces);
            let (_, last) = end.stepped(StreamView::Stopped { reason });
            text_of(shown + last) == secrets::redacted(
                redactor.text + whole_of(pieces),
                redactor.values,
            )
        }),
    decreases pieces.len(),
{
    let (end, shown) = redactor.fed(pieces);
    let (_, last) = end.stepped(StreamView::Stopped { reason });
    if pieces.len() == 0 {
        let stop = StreamView::Stopped { reason: secrets::redacted(reason, redactor.values) };
        let calls = if redactor.leaks() {
            Seq::empty()
        } else {
            redactor.tools
        };
        let thought = redactor.waiting_reasoning().push(stop);
        assert(shown + last =~= calls + redactor.waiting_text() + thought);
        lemma_text_of_parts(calls + redactor.waiting_text(), thought);
        lemma_text_of_parts(calls, redactor.waiting_text());
        lemma_no_text(calls);
        lemma_no_text(thought);
        lemma_text_out(secrets::redacted(redactor.text, redactor.values));
        assert(redactor.text + whole_of(pieces) =~= redactor.text);
        assert(text_of(shown + last) =~= secrets::redacted(redactor.text, redactor.values));
    } else {
        let (next, first) = redactor.stepped(StreamView::TextDelta(pieces[0]));
        let (_, later) = next.fed(pieces.drop_first());
        let all = redactor.text + pieces[0];
        let n = safe_split(all, redactor.values);
        let rest = whole_of(pieces.drop_first());
        let ready = secrets::redacted(all.take(n), redactor.values);
        law_a_stream_is_redacted_as_the_whole(next, pieces.drop_first(), reason);
        law_pieces_are_redacted_as_the_whole(all, redactor.values, rest);
        assert(shown + last =~= first + (later + last));
        lemma_text_of_parts(first, later + last);
        lemma_text_of_parts(redactor.waiting_reasoning(), text_out(ready));
        lemma_no_text(redactor.waiting_reasoning());
        lemma_text_out(ready);
        assert(text_of(first) =~= ready);
        assert(redactor.text + whole_of(pieces) =~= all + rest);
    }
}

} // verus!
