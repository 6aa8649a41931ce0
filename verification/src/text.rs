//! Text as sequences of characters: the measures, searches and rewrites that
//! the rest of the library states its contracts with.
use vstd::prelude::*;
use vstd::string::*;
use vstd::utf8::*;

verus! {

/// `String::push` appends one character.
pub assume_specification[ String::push ](s: &mut String, c: char)
    ensures
        final(s)@ == old(s)@.push(c),
;

/// `str` compares equal exactly when the characters agree.
pub assume_specification[ <str as PartialEq>::eq ](a: &str, b: &str) -> (r: bool)
    ensures
        r == (a@ == b@),
;

/// `String::capacity` gives the bytes that a text has room for, at least those that
/// it has. How many more there are rests on the allocator and on how the text came
/// about, and is left open.
pub assume_specification[ String::capacity ](s: &String) -> (r: usize)
    ensures
        r >= byte_len(s@),
;

/// The text that `String::from_utf8_lossy` reads out of bytes.
pub uninterp spec fn lossy(bytes: Seq<u8>) -> Seq<char>;

/// `String::from_utf8_lossy`, which reads bytes as text and puts a replacement
/// character where they are no UTF-8. Its result is named; of bytes that are
/// UTF-8 it is also stated that the result is the text they encode.
#[verifier::external_body]
pub(crate) fn lossy_text(bytes: &[u8]) -> (r: String)
    ensures
        r@ == lossy(bytes@),
        valid_utf8(bytes@) ==> r@ == decode_utf8(bytes@),
{
    String::from_utf8_lossy(bytes).into_owned()
}

/// `str::from_utf8`, which gives the text that bytes encode just where they are
/// UTF-8.
#[verifier::external_body]
pub(crate) fn utf8_text(bytes: &[u8]) -> (r: Option<String>)
    ensures
        r is Some <==> valid_utf8(bytes@),
        r matches Some(s) ==> s@ == decode_utf8(bytes@),
{
    std::str::from_utf8(bytes).ok().map(str::to_owned)
}

/// Number of bytes that one character takes in UTF-8.
pub open spec fn char_width(c: char) -> nat {
    if (c as u32) < 0x80 {
        1
    } else if (c as u32) < 0x800 {
        2
    } else if (c as u32) < 0x10000 {
        3
    } else {
        4
    }
}

/// Number of bytes of a text in UTF-8.
pub open spec fn byte_len(s: Seq<char>) -> nat {
    encode_utf8(s).len()
}

pub proof fn lemma_byte_len_empty()
    ensures
        byte_len(Seq::<char>::empty()) == 0,
{
}

pub proof fn lemma_byte_len_add(a: Seq<char>, b: Seq<char>)
    ensures
        byte_len(a + b) == byte_len(a) + byte_len(b),
    decreases a.len(),
{
    if a.len() == 0 {
        assert(a + b =~= b);
    } else {
        lemma_byte_len_add(a.drop_first(), b);
        assert((a + b).drop_first() =~= a.drop_first() + b);
        assert((a + b)[0] == a[0]);
    }
}

pub proof fn lemma_byte_len_one(c: char)
    ensures
        byte_len(seq![c]) == char_width(c),
{
    broadcast use char_is_scalar;

    assert(seq![c].drop_first() =~= Seq::<char>::empty());
    assert(encode_utf8(seq![c].drop_first()).len() == 0);
    assert(is_scalar(c as u32));
}

pub proof fn lemma_byte_len_push(s: Seq<char>, c: char)
    ensures
        byte_len(s.push(c)) == byte_len(s) + char_width(c),
{
    assert(s.push(c) =~= s + seq![c]);
    lemma_byte_len_add(s, seq![c]);
    lemma_byte_len_one(c);
}

/// The bytes of a text are the bytes of its first part and then of the rest.
pub proof fn lemma_encode_add(a: Seq<char>, b: Seq<char>)
    ensures
        encode_utf8(a + b) == encode_utf8(a) + encode_utf8(b),
    decreases a.len(),
{
    if a.len() == 0 {
        assert(a + b =~= b);
        assert(encode_utf8(a) + encode_utf8(b) =~= encode_utf8(b));
    } else {
        lemma_encode_add(a.drop_first(), b);
        assert((a + b).drop_first() =~= a.drop_first() + b);
        assert((a + b)[0] == a[0]);
        assert(encode_utf8(a + b) =~= encode_utf8(a) + encode_utf8(b));
    }
}

pub proof fn lemma_byte_len_at_least(s: Seq<char>)
    ensures
        s.len() <= byte_len(s),
    decreases s.len(),
{
    if s.len() > 0 {
        lemma_byte_len_at_least(s.drop_first());
        assert(encode_scalar(s[0] as u32).len() >= 1);
    }
}

/// The characters of a text, as a vector.
pub fn chars_of(s: &str) -> (out: Vec<char>)
    ensures
        out@ == s@,
{
    let mut out: Vec<char> = Vec::new();
    for c in it: s.chars()
        invariant
            it.seq() == s@,
            out@ == s@.take(it.index()),
    {
        assert(s@.take(it.index() + 1) =~= s@.take(it.index()).push(c));
        out.push(c);
    }
    assert(s@.take(s@.len() as int) =~= s@);
    out
}

/// Characters `from..to` of a vector, as a string.
pub fn string_of(chars: &Vec<char>, from: usize, to: usize) -> (out: String)
    requires
        from <= to <= chars@.len(),
    ensures
        out@ == chars@.subrange(from as int, to as int),
{
    let mut out = String::new();
    let mut i: usize = from;
    while i < to
        invariant
            from <= i <= to <= chars@.len(),
            out@ == chars@.subrange(from as int, i as int),
        decreases to - i,
    {
        out.push(chars[i]);
        assert(chars@.subrange(from as int, i + 1) =~= chars@.subrange(from as int, i as int).push(chars@[i as int]));
        i = i + 1;
    }
    out
}

/// Whether two texts hold the same characters.
pub fn same(a: &str, b: &str) -> (r: bool)
    ensures
        r == (a@ == b@),
{
    *a == *b
}

/// Number of characters of a text.
pub fn char_count(s: &str) -> (n: usize)
    ensures
        n == s@.len(),
{
    s.unicode_len()
}

/// Number of bytes of a text in UTF-8.
pub fn byte_count(s: &str) -> (n: usize)
    ensures
        n == byte_len(s@),
{
    s.as_bytes().len()
}

/// The bytes of a text.
pub fn bytes_of(s: &str) -> (out: Vec<u8>)
    ensures
        out@ == encode_utf8(s@),
{
    let bytes = s.as_bytes();
    let mut out: Vec<u8> = Vec::new();
    let mut i: usize = 0;
    while i < bytes.len()
        invariant
            i <= bytes.len(),
            out@ == bytes@.take(i as int),
        decreases bytes.len() - i,
    {
        out.push(bytes[i]);
        assert(bytes@.take(i + 1) =~= bytes@.take(i as int).push(bytes@[i as int]));
        i = i + 1;
    }
    assert(bytes@.take(bytes@.len() as int) =~= bytes@);
    out
}

/// Number of bytes that one character takes in UTF-8.
pub fn width_of(c: char) -> (n: usize)
    ensures
        n == char_width(c),
{
    let u: u32 = c as u32;
    if u < 0x80 {
        1
    } else if u < 0x800 {
        2
    } else if u < 0x10000 {
        3
    } else {
        4
    }
}

/// Whether a character has Unicode's White_Space property.
pub open spec fn is_space(c: char) -> bool {
    let u = c as u32;
    ||| 0x9 <= u <= 0xd
    ||| u == 0x20
    ||| u == 0x85
    ||| u == 0xa0
    ||| u == 0x1680
    ||| 0x2000 <= u <= 0x200a
    ||| u == 0x2028
    ||| u == 0x2029
    ||| u == 0x202f
    ||| u == 0x205f
    ||| u == 0x3000
}

pub fn space(c: char) -> (r: bool)
    ensures
        r == is_space(c),
{
    let u: u32 = c as u32;
    (0x9 <= u && u <= 0xd) || u == 0x20 || u == 0x85 || u == 0xa0 || u == 0x1680 || (0x2000 <= u
        && u <= 0x200a) || u == 0x2028 || u == 0x2029 || u == 0x202f || u == 0x205f || u == 0x3000
}

/// A text without its leading white space.
pub open spec fn trim_start(s: Seq<char>) -> Seq<char>
    decreases s.len(),
{
    if s.len() > 0 && is_space(s[0]) {
        trim_start(s.drop_first())
    } else {
        s
    }
}

/// A text without its trailing white space.
pub open spec fn trim_end(s: Seq<char>) -> Seq<char>
    decreases s.len(),
{
    if s.len() > 0 && is_space(s.last()) {
        trim_end(s.drop_last())
    } else {
        s
    }
}

/// A text without white space at either end.
pub open spec fn trim(s: Seq<char>) -> Seq<char> {
    trim_end(trim_start(s))
}

proof fn lemma_trimmed_start(s: Seq<char>) -> (a: int)
    ensures
        0 <= a <= s.len(),
        trim_start(s) == s.skip(a),
        forall|i: int| 0 <= i < a ==> is_space(#[trigger] s[i]),
        a < s.len() ==> !is_space(s[a]),
    decreases s.len(),
{
    if s.len() > 0 && is_space(s[0]) {
        let rest = s.drop_first();
        let a = lemma_trimmed_start(rest);
        assert(rest.skip(a) =~= s.skip(a + 1));
        assert forall|i: int| 0 <= i < a + 1 implies is_space(#[trigger] s[i]) by {
            if i > 0 {
                assert(rest[i - 1] == s[i]);
            }
        }
        assert(a < rest.len() ==> rest[a] == s[a + 1]);
        a + 1
    } else {
        assert(s.skip(0) =~= s);
        0
    }
}

proof fn lemma_trimmed_end(s: Seq<char>) -> (b: int)
    ensures
        0 <= b <= s.len(),
        trim_end(s) == s.take(b),
        forall|i: int| b <= i < s.len() ==> is_space(#[trigger] s[i]),
        b > 0 ==> !is_space(s[b - 1]),
    decreases s.len(),
{
    if s.len() > 0 && is_space(s.last()) {
        let front = s.drop_last();
        let b = lemma_trimmed_end(front);
        assert(front.take(b) =~= s.take(b));
        assert forall|i: int| b <= i < s.len() implies is_space(#[trigger] s[i]) by {
            if i < front.len() {
                assert(front[i] == s[i]);
            }
        }
        b
    } else {
        assert(s.take(s.len() as int) =~= s);
        s.len() as int
    }
}

/// Trimming takes white space away at both ends, all that is there, and nothing
/// else: the text that is left stands at `a` in the text given.
pub proof fn law_trimming_takes_outer_space_alone(s: Seq<char>) -> (a: int)
    ensures
        0 <= a,
        a + trim(s).len() <= s.len(),
        trim(s) == s.subrange(a, a + trim(s).len()),
        forall|i: int|
            0 <= i < a || a + trim(s).len() <= i < s.len() ==> is_space(#[trigger] s[i]),
        trim(s).len() > 0 ==> !is_space(trim(s)[0]) && !is_space(trim(s).last()),
{
    let a = lemma_trimmed_start(s);
    let rest = trim_start(s);
    let b = lemma_trimmed_end(rest);
    assert(trim(s) =~= s.subrange(a, a + b));
    assert forall|i: int| a + b <= i < s.len() implies is_space(#[trigger] s[i]) by {
        assert(rest[i - a] == s[i]);
    }
    a
}

/// Position behind the trailing part of `chars[from..to]` that is no white space.
fn end_of_trimmed(chars: &Vec<char>, from: usize, to: usize) -> (end: usize)
    requires
        from <= to <= chars@.len(),
    ensures
        from <= end <= to,
        chars@.subrange(from as int, end as int) == trim_end(
            chars@.subrange(from as int, to as int),
        ),
{
    let mut end: usize = to;
    while end > from && space(chars[end - 1])
        invariant
            from <= end <= to <= chars@.len(),
            trim_end(chars@.subrange(from as int, end as int)) == trim_end(
                chars@.subrange(from as int, to as int),
            ),
        decreases end,
    {
        assert(chars@.subrange(from as int, end as int).drop_last() =~= chars@.subrange(
            from as int,
            end - 1,
        ));
        end = end - 1;
    }
    end
}

/// Position of the first character of `chars` that is no white space.
fn start_of_trimmed(chars: &Vec<char>) -> (start: usize)
    ensures
        start <= chars@.len(),
        chars@.subrange(start as int, chars@.len() as int) == trim_start(chars@),
{
    let n: usize = chars.len();
    let mut i: usize = 0;
    assert(chars@.subrange(0, n as int) =~= chars@);
    while i < n && space(chars[i])
        invariant
            i <= n == chars@.len(),
            trim_start(chars@.subrange(i as int, n as int)) == trim_start(chars@),
        decreases n - i,
    {
        assert(chars@.subrange(i as int, n as int).drop_first() =~= chars@.subrange(
            i + 1,
            n as int,
        ));
        i = i + 1;
    }
    i
}

/// `str::trim`, as an owned text.
pub fn trimmed(s: &str) -> (out: String)
    ensures
        out@ == trim(s@),
{
    let chars = chars_of(s);
    let from = start_of_trimmed(&chars);
    let to = end_of_trimmed(&chars, from, chars.len());
    string_of(&chars, from, to)
}

/// `str::trim_start`, as an owned text.
pub fn start_trimmed(s: &str) -> (out: String)
    ensures
        out@ == trim_start(s@),
{
    let chars = chars_of(s);
    let from = start_of_trimmed(&chars);
    string_of(&chars, from, chars.len())
}

/// `str::trim_end`, as an owned text.
pub fn end_trimmed(s: &str) -> (out: String)
    ensures
        out@ == trim_end(s@),
{
    let chars = chars_of(s);
    let to = end_of_trimmed(&chars, 0, chars.len());
    assert(chars@.subrange(0, chars@.len() as int) =~= chars@);
    string_of(&chars, 0, to)
}

/// The control characters, as `char::is_control` counts them.
pub open spec fn is_control(c: char) -> bool {
    (c as u32) < 0x20 || 0x7f <= (c as u32) < 0xa0
}

/// Whether a text holds a control character.
pub open spec fn has_control(s: Seq<char>) -> bool {
    exists|i: int| 0 <= i < s.len() && is_control(#[trigger] s[i])
}

pub fn any_control(s: &str) -> (r: bool)
    ensures
        r == has_control(s@),
{
    let chars = chars_of(s);
    let mut i: usize = 0;
    while i < chars.len()
        invariant
            i <= chars@.len(),
            chars@ == s@,
            forall|k: int| 0 <= k < i ==> !is_control(#[trigger] s@[k]),
        decreases chars@.len() - i,
    {
        let code: u32 = chars[i] as u32;
        if code < 0x20 || (0x7f <= code && code < 0xa0) {
            assert(is_control(s@[i as int]));
            return true;
        }
        i = i + 1;
    }
    false
}

/// An ASCII capital as its small letter, any other character as it is.
pub open spec fn lower_char(c: char) -> char {
    if 'A' <= c <= 'Z' {
        ((c as u32) + 32) as char
    } else {
        c
    }
}

/// A text with its ASCII capitals as small letters.
pub open spec fn lower(s: Seq<char>) -> Seq<char> {
    s.map_values(|c: char| lower_char(c))
}

pub fn lower_of(c: char) -> (r: char)
    ensures
        r == lower_char(c),
{
    if 'A' <= c && c <= 'Z' {
        let b: u8 = (c as u8) + 32;
        b as char
    } else {
        c
    }
}

/// `str::to_ascii_lowercase`.
pub fn lowered(s: &str) -> (out: String)
    ensures
        out@ == lower(s@),
{
    let mut out = String::new();
    let chars = chars_of(s);
    let mut i: usize = 0;
    while i < chars.len()
        invariant
            i <= chars@.len(),
            out@ == lower(chars@.take(i as int)),
        decreases chars@.len() - i,
    {
        out.push(lower_of(chars[i]));
        assert(lower(chars@.take(i + 1)) =~= lower(chars@.take(i as int)).push(
            lower_char(chars@[i as int]),
        ));
        i = i + 1;
    }
    assert(chars@.take(chars@.len() as int) =~= chars@);
    out
}

/// Whether `p` stands in `s` at position `i`.
pub open spec fn occurs_at(s: Seq<char>, p: Seq<char>, i: int) -> bool {
    0 <= i && i + p.len() <= s.len() && s.subrange(i, i + p.len()) == p
}

/// Whether `p` stands somewhere in `s`.
pub open spec fn contains(s: Seq<char>, p: Seq<char>) -> bool {
    exists|i: int| #[trigger] occurs_at(s, p, i)
}

pub open spec fn starts_with(s: Seq<char>, p: Seq<char>) -> bool {
    occurs_at(s, p, 0)
}

pub open spec fn ends_with(s: Seq<char>, p: Seq<char>) -> bool {
    occurs_at(s, p, s.len() - p.len())
}

pub fn stands_at(s: &Vec<char>, p: &Vec<char>, i: usize) -> (r: bool)
    requires
        i <= s@.len(),
    ensures
        r == occurs_at(s@, p@, i as int),
{
    if s.len() - i < p.len() {
        return false;
    }
    let mut j: usize = 0;
    while j < p.len()
        invariant
            j <= p@.len(),
            i + p@.len() <= s.len(),
            forall|k: int| 0 <= k < j ==> s@[i + k] == p@[k],
        decreases p@.len() - j,
    {
        if s[i + j] != p[j] {
            assert(s@.subrange(i as int, i + p@.len())[j as int] != p@[j as int]);
            return false;
        }
        j = j + 1;
    }
    assert(s@.subrange(i as int, i + p@.len()) =~= p@);
    true
}

/// The first position at or behind `from` where `p` stands in `s`.
pub open spec fn find_from(s: Seq<char>, p: Seq<char>, from: int) -> Option<int>
    decreases s.len() + 1 - from,
{
    if from + p.len() > s.len() {
        None
    } else if occurs_at(s, p, from) {
        Some(from)
    } else {
        find_from(s, p, from + 1)
    }
}

pub fn find_at(s: &Vec<char>, p: &Vec<char>, from: usize) -> (r: Option<usize>)
    requires
        from <= s@.len(),
    ensures
        (match r {
            Some(i) => find_from(s@, p@, from as int) == Some(i as int),
            None => find_from(s@, p@, from as int) is None,
        }),
        r matches Some(i) ==> from <= i && i + p@.len() <= s@.len(),
{
    let mut i: usize = from;
    while i <= s.len() && s.len() - i >= p.len()
        invariant
            from <= i <= s@.len() + 1,
            find_from(s@, p@, i as int) == find_from(s@, p@, from as int),
        decreases s@.len() + 1 - i,
    {
        if stands_at(s, p, i) {
            return Some(i);
        }
        if i == s.len() {
            assert(s@.subrange(i as int, i as int) =~= p@);
            return None;
        }
        i = i + 1;
    }
    None
}

/// What `find_from` finds is the first occurrence, and it finds every one.
pub proof fn lemma_find_from(s: Seq<char>, p: Seq<char>, from: int)
    requires
        0 <= from,
    ensures
        match find_from(s, p, from) {
            Some(i) => from <= i && occurs_at(s, p, i) && (forall|j: int|
                from <= j < i ==> !#[trigger] occurs_at(s, p, j)),
            None => forall|j: int| from <= j ==> !#[trigger] occurs_at(s, p, j),
        },
    decreases s.len() + 1 - from,
{
    if from + p.len() > s.len() {
    } else if occurs_at(s, p, from) {
    } else {
        lemma_find_from(s, p, from + 1);
    }
}

/// `str::contains` for a text.
pub fn has(s: &str, p: &str) -> (r: bool)
    ensures
        r == contains(s@, p@),
{
    let sc = chars_of(s);
    let pc = chars_of(p);
    proof {
        lemma_find_from(s@, p@, 0);
    }
    let r = find_at(&sc, &pc, 0);
    r.is_some()
}

/// `str::starts_with` for a text.
pub fn begins(s: &str, p: &str) -> (r: bool)
    ensures
        r == starts_with(s@, p@),
{
    let sc = chars_of(s);
    let pc = chars_of(p);
    stands_at(&sc, &pc, 0)
}

/// `str::ends_with` for a text.
pub fn ends(s: &str, p: &str) -> (r: bool)
    ensures
        r == ends_with(s@, p@),
{
    let sc = chars_of(s);
    let pc = chars_of(p);
    if sc.len() < pc.len() {
        return false;
    }
    stands_at(&sc, &pc, sc.len() - pc.len())
}

/// What stands behind a leading `p`, where `s` begins with it.
pub open spec fn strip_prefix(s: Seq<char>, p: Seq<char>) -> Option<Seq<char>> {
    if starts_with(s, p) {
        Some(s.skip(p.len() as int))
    } else {
        None
    }
}

/// `str::strip_prefix`, as an owned text.
pub fn without_prefix(s: &str, p: &str) -> (r: Option<String>)
    ensures
        match r {
            Some(t) => strip_prefix(s@, p@) == Some(t@),
            None => strip_prefix(s@, p@) is None,
        },
{
    let sc = chars_of(s);
    let pc = chars_of(p);
    if stands_at(&sc, &pc, 0) {
        assert(s@.skip(p@.len() as int) =~= s@.subrange(p@.len() as int, s@.len() as int));
        Some(string_of(&sc, pc.len(), sc.len()))
    } else {
        None
    }
}

/// Every occurrence of `p`, taken from the left without overlap, written as `w`.
pub open spec fn replaced(s: Seq<char>, p: Seq<char>, w: Seq<char>) -> Seq<char>
    decreases s.len(),
{
    if s.len() == 0 || p.len() == 0 {
        s
    } else if occurs_at(s, p, 0) {
        w + replaced(s.skip(p.len() as int), p, w)
    } else {
        seq![s[0]] + replaced(s.skip(1), p, w)
    }
}

/// `str::replace` for a pattern that is not empty.
pub fn replace(s: &str, p: &str, w: &str) -> (out: String)
    requires
        p@.len() > 0,
    ensures
        out@ == replaced(s@, p@, w@),
{
    let sc = chars_of(s);
    let pc = chars_of(p);
    let mut out = String::new();
    let mut i: usize = 0;
    assert(s@.skip(0) =~= s@);
    while i < sc.len()
        invariant
            i <= sc@.len(),
            sc@ == s@,
            pc@ == p@,
            p@.len() > 0,
            out@ + replaced(s@.skip(i as int), p@, w@) =~= replaced(s@, p@, w@),
        decreases sc@.len() - i,
    {
        let ghost rest = s@.skip(i as int);
        let ghost before = out@;
        if stands_at(&sc, &pc, i) {
            assert(rest.subrange(0, p@.len() as int) =~= s@.subrange(i as int, i + p@.len()));
            assert(occurs_at(rest, p@, 0));
            out.append(w);
            assert(rest.skip(p@.len() as int) =~= s@.skip(i + p@.len()));
            assert(before + (w@ + replaced(s@.skip(i + p@.len()), p@, w@)) =~= (before + w@)
                + replaced(s@.skip(i + p@.len()), p@, w@));
            i = i + pc.len();
        } else {
            assert(!occurs_at(rest, p@, 0)) by {
                if occurs_at(rest, p@, 0) {
                    assert(rest.subrange(0, p@.len() as int) =~= s@.subrange(
                        i as int,
                        i + p@.len(),
                    ));
                }
            }
            out.push(sc[i]);
            assert(rest.skip(1) =~= s@.skip(i + 1));
            assert(before + (seq![rest[0]] + replaced(s@.skip(i + 1), p@, w@)) =~= before.push(
                s@[i as int],
            ) + replaced(s@.skip(i + 1), p@, w@));
            i = i + 1;
        }
    }
    assert(s@.skip(i as int) =~= Seq::<char>::empty());
    out
}

/// A text in which `p` does not stand is left as it is.
pub proof fn lemma_replaced_absent(s: Seq<char>, p: Seq<char>, w: Seq<char>)
    requires
        !contains(s, p),
    ensures
        replaced(s, p, w) == s,
    decreases s.len(),
{
    if s.len() == 0 || p.len() == 0 {
    } else {
        assert(!occurs_at(s, p, 0));
        let rest = s.skip(1);
        assert forall|i: int| !#[trigger] occurs_at(rest, p, i) by {
            if occurs_at(rest, p, i) {
                assert(rest.subrange(i, i + p.len()) =~= s.subrange(i + 1, i + 1 + p.len()));
                assert(occurs_at(s, p, i + 1));
            }
        }
        lemma_replaced_absent(rest, p, w);
        assert(seq![s[0]] + rest =~= s);
    }
}

/// The texts between the separators.
pub open spec fn split(s: Seq<char>, sep: char) -> Seq<Seq<char>>
    decreases s.len(),
{
    if s.len() == 0 {
        seq![Seq::empty()]
    } else {
        let before = split(s.drop_last(), sep);
        if s.last() == sep {
            before.push(Seq::empty())
        } else {
            before.drop_last().push(before.last().push(s.last()))
        }
    }
}

pub proof fn lemma_split_nonempty(s: Seq<char>, sep: char)
    ensures
        split(s, sep).len() >= 1,
    decreases s.len(),
{
    if s.len() > 0 {
        lemma_split_nonempty(s.drop_last(), sep);
    }
}

/// The views of a vector of texts.
pub open spec fn texts(v: Seq<String>) -> Seq<Seq<char>> {
    v.map_values(|s: String| s@)
}

/// `str::split` at a character, as owned texts.
pub fn parts_of(s: &str, sep: char) -> (out: Vec<String>)
    ensures
        texts(out@) == split(s@, sep),
        out@.len() >= 1,
{
    let chars = chars_of(s);
    let mut out: Vec<String> = Vec::new();
    let mut current = String::new();
    let mut i: usize = 0;
    assert(texts(out@) =~= split(s@.take(0), sep).drop_last());
    while i < chars.len()
        invariant
            i <= chars@.len(),
            chars@ == s@,
            split(s@.take(i as int), sep).len() >= 1,
            texts(out@) == split(s@.take(i as int), sep).drop_last(),
            current@ == split(s@.take(i as int), sep).last(),
        decreases chars@.len() - i,
    {
        let c = chars[i];
        let ghost before = split(s@.take(i as int), sep);
        assert(s@.take(i + 1).drop_last() =~= s@.take(i as int));
        if c == sep {
            let ghost done = out@;
            let ghost piece = current;
            out.push(current);
            assert(texts(out@) =~= texts(done).push(piece@));
            assert(before.drop_last().push(before.last()) =~= before);
            current = String::new();
            assert(split(s@.take(i + 1), sep).drop_last() =~= before);
        } else {
            current.push(c);
            assert(split(s@.take(i + 1), sep).drop_last() =~= before.drop_last());
        }
        i = i + 1;
    }
    assert(s@.take(s@.len() as int) =~= s@);
    let ghost done = out@;
    let ghost piece = current;
    out.push(current);
    assert(texts(out@) =~= texts(done).push(piece@));
    assert(split(s@, sep).drop_last().push(split(s@, sep).last()) =~= split(s@, sep));
    out
}

/// The first place of a character from `from` on.
pub open spec fn char_from(s: Seq<char>, c: char, from: int) -> Option<int>
    decreases s.len() - from,
{
    if from < 0 || from >= s.len() {
        None
    } else if s[from] == c {
        Some(from)
    } else {
        char_from(s, c, from + 1)
    }
}

/// A text on both sides of the first place of a character.
pub open spec fn split_once(s: Seq<char>, c: char) -> Option<(Seq<char>, Seq<char>)> {
    match char_from(s, c, 0) {
        Some(i) => Some((s.take(i), s.skip(i + 1))),
        None => None,
    }
}

/// `str::split_once` with a character.
pub fn cut_once(s: &str, c: char) -> (r: Option<(String, String)>)
    ensures
        match r {
            Some(parts) => split_once(s@, c) == Some((parts.0@, parts.1@)),
            None => split_once(s@, c) is None,
        },
{
    let chars = chars_of(s);
    let mut i: usize = 0;
    while i < chars.len()
        invariant
            i <= chars.len(),
            chars@ == s@,
            char_from(s@, c, 0) == char_from(s@, c, i as int),
        decreases chars.len() - i,
    {
        if chars[i] == c {
            let head = string_of(&chars, 0, i);
            let tail = string_of(&chars, i + 1, chars.len());
            assert(head@ =~= s@.take(i as int));
            assert(tail@ =~= s@.skip(i + 1));
            return Some((head, tail));
        }
        i = i + 1;
    }
    None
}

/// What follows the last place of a character, or the whole text.
pub open spec fn last_part(s: Seq<char>, c: char) -> Seq<char>
    decreases s.len(),
{
    if s.len() == 0 || s.last() == c {
        Seq::empty()
    } else {
        last_part(s.drop_last(), c).push(s.last())
    }
}

/// The last item of `str::rsplit` with a character.
pub fn after_last(s: &str, c: char) -> (r: String)
    ensures
        r@ == last_part(s@, c),
{
    let chars = chars_of(s);
    let mut i: usize = chars.len();
    assert(s@.take(i as int) =~= s@);
    assert(last_part(s@.take(i as int), c) + s@.skip(i as int) =~= last_part(s@, c));
    while i > 0 && chars[i - 1] != c
        invariant
            i <= chars@.len(),
            chars@ == s@,
            last_part(s@, c) == last_part(s@.take(i as int), c) + s@.skip(i as int),
        decreases i,
    {
        assert(s@.take(i as int).drop_last() =~= s@.take(i - 1));
        assert(last_part(s@.take(i as int), c) + s@.skip(i as int) =~= last_part(
            s@.take(i - 1),
            c,
        ) + s@.skip(i - 1));
        i = i - 1;
    }
    let out = string_of(&chars, i, chars.len());
    assert(out@ =~= s@.skip(i as int));
    assert(last_part(s@.take(i as int), c) + s@.skip(i as int) =~= s@.skip(i as int));
    out
}

/// Whether two texts agree but for ASCII case.
pub fn same_ignoring_case(a: &str, b: &str) -> (r: bool)
    ensures
        r == (lower(a@) == lower(b@)),
{
    same(lowered(a).as_str(), lowered(b).as_str())
}

/// A text without the carriage returns at its end.
pub open spec fn without_returns(s: Seq<char>) -> Seq<char>
    decreases s.len(),
{
    if s.len() > 0 && s.last() == '\r' {
        without_returns(s.drop_last())
    } else {
        s
    }
}

/// `str::trim_end_matches` with a carriage return.
pub fn drop_returns(s: &str) -> (r: String)
    ensures
        r@ == without_returns(s@),
{
    let chars = chars_of(s);
    let mut end: usize = chars.len();
    assert(s@.take(end as int) =~= s@);
    while end > 0 && chars[end - 1] == '\r'
        invariant
            end <= chars@.len(),
            chars@ == s@,
            without_returns(s@) == without_returns(s@.take(end as int)),
        decreases end,
    {
        assert(s@.take(end as int).drop_last() =~= s@.take(end - 1));
        end = end - 1;
    }
    let out = string_of(&chars, 0, end);
    assert(out@ =~= s@.take(end as int));
    out
}

/// A line without the carriage return of its line ending.
pub open spec fn without_return(s: Seq<char>) -> Seq<char> {
    if s.len() > 0 && s.last() == '\r' {
        s.drop_last()
    } else {
        s
    }
}

/// The lines of a text: what stands before each line feed, without the carriage
/// return of a `\r\n`, and what is left behind the last one.
pub open spec fn lines(s: Seq<char>) -> Seq<Seq<char>> {
    let parts = split(s, '\n');
    let ended = parts.drop_last().map_values(|p: Seq<char>| without_return(p));
    if parts.last().len() == 0 {
        ended
    } else {
        ended.push(parts.last())
    }
}

fn drop_return(s: &str) -> (out: String)
    ensures
        out@ == without_return(s@),
{
    let chars = chars_of(s);
    let n: usize = chars.len();
    assert(s@.drop_last() =~= s@.subrange(0, s@.len() - 1));
    assert(s@.subrange(0, s@.len() as int) =~= s@);
    if n > 0 && chars[n - 1] == '\r' {
        string_of(&chars, 0, n - 1)
    } else {
        string_of(&chars, 0, n)
    }
}

/// `str::lines`, as owned texts.
pub fn lines_of(s: &str) -> (out: Vec<String>)
    ensures
        texts(out@) == lines(s@),
{
    let parts = parts_of(s, '\n');
    let mut out: Vec<String> = Vec::new();
    let ghost all = split(s@, '\n');
    let ghost ended = all.drop_last().map_values(|p: Seq<char>| without_return(p));
    let last: usize = parts.len() - 1;
    let mut i: usize = 0;
    while i < last
        invariant
            i <= last,
            last + 1 == parts@.len(),
            texts(parts@) == all,
            ended == all.drop_last().map_values(|p: Seq<char>| without_return(p)),
            texts(out@) == ended.take(i as int),
        decreases last - i,
    {
        let ghost done = out@;
        let line = drop_return(parts[i].as_str());
        assert(texts(parts@)[i as int] == parts@[i as int]@);
        out.push(line);
        assert(texts(out@) =~= texts(done).push(line@));
        assert(ended.take(i + 1) =~= ended.take(i as int).push(ended[i as int]));
        i = i + 1;
    }
    assert(ended.take(last as int) =~= ended);
    assert(texts(parts@)[last as int] == parts@[last as int]@);
    if !parts[last].as_str().is_empty() {
        let ghost done = out@;
        let line = parts[last].clone();
        out.push(line);
        assert(texts(out@) =~= texts(done).push(line@));
    }
    out
}

/// Texts put behind one another with `sep` between each two.
pub open spec fn join(parts: Seq<Seq<char>>, sep: Seq<char>) -> Seq<char>
    decreases parts.len(),
{
    if parts.len() == 0 {
        Seq::empty()
    } else if parts.len() == 1 {
        parts[0]
    } else {
        join(parts.drop_last(), sep) + sep + parts.last()
    }
}

/// Where a part of a joined text begins.
pub open spec fn part_start(parts: Seq<Seq<char>>, sep: Seq<char>, k: int) -> int {
    if k <= 0 {
        0
    } else {
        (join(parts.take(k), sep).len() + sep.len()) as int
    }
}

/// Every part of a joined text stands in it, and the next begins behind the
/// separator that follows it.
pub proof fn law_joined_parts_are_there(parts: Seq<Seq<char>>, sep: Seq<char>, k: int)
    requires
        0 <= k < parts.len(),
    ensures
        occurs_at(join(parts, sep), parts[k], part_start(parts, sep, k)),
        part_start(parts, sep, k + 1) == part_start(parts, sep, k) + parts[k].len() + sep.len(),
    decreases parts.len(),
{
    let front = parts.drop_last();
    let start = part_start(parts, sep, k);
    let end = start + parts[k].len();
    assert(parts.take(k + 1).drop_last() =~= parts.take(k));
    if k == parts.len() - 1 {
        assert(parts.take(k) =~= front);
        assert(parts.take(k + 1) =~= parts);
        assert(join(parts, sep).subrange(start, end) =~= parts[k]);
    } else {
        law_joined_parts_are_there(front, sep, k);
        assert(front.take(k) =~= parts.take(k));
        assert(front.take(k + 1) =~= parts.take(k + 1));
        assert(join(parts, sep).subrange(start, end) =~= join(front, sep).subrange(start, end));
    }
}

/// `[String]::join`.
pub fn joined(parts: &Vec<String>, sep: &str) -> (out: String)
    ensures
        out@ == join(texts(parts@), sep@),
{
    let mut out = String::new();
    let mut i: usize = 0;
    while i < parts.len()
        invariant
            i <= parts@.len(),
            out@ == join(texts(parts@).take(i as int), sep@),
        decreases parts@.len() - i,
    {
        if i > 0 {
            out.append(sep);
        }
        out.append(parts[i].as_str());
        assert(texts(parts@).take(i + 1).drop_last() =~= texts(parts@).take(i as int));
        assert(texts(parts@)[i as int] == parts@[i as int]@);
        i = i + 1;
    }
    assert(texts(parts@).take(parts@.len() as int) =~= texts(parts@));
    out
}

/// The decimal digit of a number below ten.
pub open spec fn digit(n: nat) -> char {
    ((n + 48) as u32) as char
}

/// A number in decimal, without leading zeros.
pub open spec fn decimal(n: nat) -> Seq<char>
    decreases n,
{
    if n < 10 {
        seq![digit(n)]
    } else {
        decimal(n / 10).push(digit(n % 10))
    }
}

/// The decimal text of a number, as `to_string` gives it.
pub fn decimal_of(n: u64) -> (out: String)
    ensures
        out@ == decimal(n as nat),
{
    wide_decimal_of(n as u128)
}

pub fn wide_decimal_of(n: u128) -> (out: String)
    ensures
        out@ == decimal(n as nat),
    decreases n,
{
    let d: u8 = ((n % 10) as u8) + 48;
    let c: char = d as char;
    if n < 10 {
        let mut out = String::new();
        out.push(c);
        assert(out@ =~= seq![digit(n as nat)]);
        out
    } else {
        let mut out = wide_decimal_of(n / 10);
        out.push(c);
        out
    }
}

/// A number in decimal, with a minus sign where it is negative.
pub open spec fn signed_decimal(n: int) -> Seq<char> {
    if n < 0 {
        "-"@ + decimal((-n) as nat)
    } else {
        decimal(n as nat)
    }
}

pub fn signed_decimal_of(n: i64) -> (out: String)
    ensures
        out@ == signed_decimal(n as int),
{
    if n >= 0 {
        decimal_of(n as u64)
    } else {
        let size: u64 = if n == i64::MIN {
            0x8000_0000_0000_0000
        } else {
            (-n) as u64
        };
        let mut out = "-".to_owned();
        out.append(decimal_of(size).as_str());
        out
    }
}

/// A small hexadecimal digit.
pub open spec fn hex_digit(n: int) -> char {
    if n < 10 {
        ((n + 48) as u32) as char
    } else {
        ((n + 87) as u32) as char
    }
}

pub fn hex_digit_of(n: u8) -> (c: char)
    requires
        n < 16,
    ensures
        c == hex_digit(n as int),
{
    if n < 10 {
        let d: u8 = n + 48;
        d as char
    } else {
        let d: u8 = n + 87;
        d as char
    }
}

/// Bytes as pairs of hexadecimal digits.
pub open spec fn hex(bytes: Seq<u8>) -> Seq<char> {
    Seq::new(
        2 * bytes.len(),
        |i: int|
            if i % 2 == 0 {
                hex_digit(bytes[i / 2] as int / 16)
            } else {
                hex_digit(bytes[i / 2] as int % 16)
            },
    )
}

pub fn hex_of(bytes: &Vec<u8>) -> (out: String)
    ensures
        out@ == hex(bytes@),
{
    let mut out = String::new();
    let mut i: usize = 0;
    while i < bytes.len()
        invariant
            i <= bytes@.len(),
            out@ =~= hex(bytes@.take(i as int)),
        decreases bytes@.len() - i,
    {
        let b: u8 = bytes[i];
        out.push(hex_digit_of(b / 16));
        out.push(hex_digit_of(b % 16));
        assert(hex(bytes@.take(i + 1)) =~= hex(bytes@.take(i as int)).push(
            hex_digit(b as int / 16),
        ).push(hex_digit(b as int % 16)));
        i = i + 1;
    }
    assert(bytes@.take(bytes@.len() as int) =~= bytes@);
    out
}

/// The big-endian bytes of a 64-bit number.
pub open spec fn big_endian(n: u64) -> Seq<u8> {
    Seq::new(8, |i: int| ((n >> ((56 - 8 * i) as u64)) & 0xff) as u8)
}

/// A 64-bit number as sixteen hexadecimal digits.
pub fn hex16_of(n: u64) -> (out: String)
    ensures
        out@ == hex(big_endian(n)),
{
    let mut bytes: Vec<u8> = Vec::new();
    let mut i: u64 = 0;
    while i < 8
        invariant
            i <= 8,
            bytes@ == big_endian(n).take(i as int),
        decreases 8 - i,
    {
        let shift: u64 = 56 - 8 * i;
        let masked: u64 = (n >> shift) & 0xff;
        bytes.push(masked as u8);
        assert(big_endian(n).take(i + 1) =~= big_endian(n).take(i as int).push(
            big_endian(n)[i as int],
        ));
        i = i + 1;
    }
    assert(big_endian(n).take(8) =~= big_endian(n));
    hex_of(&bytes)
}

/// How often a character stands in a text.
pub open spec fn count_of(s: Seq<char>, c: char) -> nat
    decreases s.len(),
{
    if s.len() == 0 {
        0
    } else {
        count_of(s.drop_last(), c) + if s.last() == c {
            1nat
        } else {
            0nat
        }
    }
}

pub fn occurrences(s: &str, c: char) -> (n: usize)
    ensures
        n == count_of(s@, c),
        n <= s@.len(),
{
    let chars = chars_of(s);
    let mut n: usize = 0;
    let mut i: usize = 0;
    while i < chars.len()
        invariant
            i <= chars@.len(),
            chars@ == s@,
            n <= i,
            n == count_of(s@.take(i as int), c),
        decreases chars@.len() - i,
    {
        assert(s@.take(i + 1).drop_last() =~= s@.take(i as int));
        if chars[i] == c {
            n = n + 1;
        }
        i = i + 1;
    }
    assert(s@.take(s@.len() as int) =~= s@);
    n
}

pub proof fn lemma_count_add(a: Seq<char>, b: Seq<char>, c: char)
    ensures
        count_of(a + b, c) == count_of(a, c) + count_of(b, c),
    decreases b.len(),
{
    if b.len() == 0 {
        assert(a + b =~= a);
    } else {
        lemma_count_add(a, b.drop_last(), c);
        assert((a + b).drop_last() =~= a + b.drop_last());
    }
}

pub proof fn lemma_count_bound(s: Seq<char>, c: char)
    ensures
        count_of(s, c) <= s.len(),
    decreases s.len(),
{
    if s.len() > 0 {
        lemma_count_bound(s.drop_last(), c);
    }
}

pub proof fn lemma_count_absent(s: Seq<char>, c: char)
    requires
        !s.contains(c),
    ensures
        count_of(s, c) == 0,
    decreases s.len(),
{
    if s.len() > 0 {
        assert(s[s.len() - 1] == s.last());
        assert forall|x: char| s.drop_last().contains(x) implies s.contains(x) by {
            let i = choose|i: int| 0 <= i < s.drop_last().len() && s.drop_last()[i] == x;
            assert(s[i] == x);
        }
        lemma_count_absent(s.drop_last(), c);
    }
}

/// Decimal digits are no line feed.
pub proof fn lemma_decimal_one_line(n: nat)
    ensures
        count_of(decimal(n), '\n') == 0,
    decreases n,
{
    if n < 10 {
        let s = seq![digit(n)];
        assert(s.drop_last() =~= Seq::empty());
        assert(count_of(s.drop_last(), '\n') == 0);
    } else {
        lemma_decimal_one_line(n / 10);
        assert(decimal(n).drop_last() =~= decimal(n / 10));
    }
}

/// The first `n` characters, or all of them where there are fewer.
pub open spec fn first_chars(s: Seq<char>, n: int) -> Seq<char> {
    if n < s.len() {
        s.take(n)
    } else {
        s
    }
}

/// `chars().take(n).collect()`.
pub fn first_chars_of(s: &str, n: usize) -> (out: String)
    ensures
        out@ == first_chars(s@, n as int),
{
    let chars = chars_of(s);
    assert(s@.subrange(0, s@.len() as int) =~= s@);
    if n < chars.len() {
        assert(s@.subrange(0, n as int) =~= s@.take(n as int));
        string_of(&chars, 0, n)
    } else {
        string_of(&chars, 0, chars.len())
    }
}

/// How many leading characters fit into `room` bytes.
pub open spec fn fitting_head(s: Seq<char>, room: int) -> nat
    decreases s.len(),
{
    if s.len() == 0 || char_width(s[0]) > room {
        0
    } else {
        1 + fitting_head(s.drop_first(), room - char_width(s[0]))
    }
}

/// How many trailing characters fit into `room` bytes.
pub open spec fn fitting_tail(s: Seq<char>, room: int) -> nat
    decreases s.len(),
{
    if s.len() == 0 || char_width(s.last()) > room {
        0
    } else {
        1 + fitting_tail(s.drop_last(), room - char_width(s.last()))
    }
}

/// The longest prefix of at most `room` bytes.
pub open spec fn head_within(s: Seq<char>, room: int) -> Seq<char> {
    s.take(fitting_head(s, room) as int)
}

/// The longest suffix of at most `room` bytes.
pub open spec fn tail_within(s: Seq<char>, room: int) -> Seq<char> {
    s.skip(s.len() - fitting_tail(s, room))
}

pub proof fn lemma_fitting_head(s: Seq<char>, room: int)
    ensures
        fitting_head(s, room) <= s.len(),
        room >= 0 ==> byte_len(head_within(s, room)) <= room,
        fitting_head(s, room) < s.len() ==> byte_len(head_within(s, room)) + char_width(
            s[fitting_head(s, room) as int],
        ) > room,
        byte_len(s) <= room ==> head_within(s, room) == s,
    decreases s.len(),
{
    let n = fitting_head(s, room);
    if s.len() == 0 {
        assert(head_within(s, room) =~= Seq::<char>::empty());
    } else {
        assert(s =~= seq![s[0]] + s.drop_first());
        lemma_byte_len_add(seq![s[0]], s.drop_first());
        lemma_byte_len_one(s[0]);
        if char_width(s[0]) > room {
            assert(head_within(s, room) =~= Seq::<char>::empty());
        } else {
            let rest = s.drop_first();
            lemma_fitting_head(rest, room - char_width(s[0]));
            let m = fitting_head(rest, room - char_width(s[0])) as int;
            assert(s.take(m + 1) =~= seq![s[0]] + rest.take(m));
            lemma_byte_len_add(seq![s[0]], rest.take(m));
            if m < rest.len() {
                assert(rest[m] == s[m + 1]);
            }
            if byte_len(s) <= room {
                assert(s.take(m + 1) =~= s);
            }
        }
    }
}

/// A prefix that fits is covered by the longest one that does.
pub proof fn lemma_head_covers(s: Seq<char>, k: int, room: int)
    requires
        0 <= k <= s.len(),
        byte_len(s.take(k)) <= room,
    ensures
        k <= fitting_head(s, room),
    decreases s.len(),
{
    if k > 0 {
        let rest = s.drop_first();
        assert(s.take(k) =~= seq![s[0]] + rest.take(k - 1));
        lemma_byte_len_add(seq![s[0]], rest.take(k - 1));
        lemma_byte_len_one(s[0]);
        lemma_head_covers(rest, k - 1, room - char_width(s[0]));
    }
}

/// A longer prefix takes no fewer bytes.
pub proof fn lemma_byte_len_prefix(s: Seq<char>, j: int, k: int)
    requires
        0 <= j <= k <= s.len(),
    ensures
        byte_len(s.take(j)) <= byte_len(s.take(k)),
{
    assert(s.take(k) =~= s.take(j) + s.subrange(j, k));
    lemma_byte_len_add(s.take(j), s.subrange(j, k));
}

pub proof fn lemma_fitting_tail(s: Seq<char>, room: int)
    ensures
        fitting_tail(s, room) <= s.len(),
        room >= 0 ==> byte_len(tail_within(s, room)) <= room,
        byte_len(s) <= room ==> tail_within(s, room) == s,
    decreases s.len(),
{
    if s.len() == 0 {
        assert(tail_within(s, room) =~= Seq::<char>::empty());
    } else {
        assert(s =~= s.drop_last().push(s.last()));
        lemma_byte_len_push(s.drop_last(), s.last());
        if char_width(s.last()) > room {
            assert(tail_within(s, room) =~= Seq::<char>::empty());
        } else {
            let rest = s.drop_last();
            lemma_fitting_tail(rest, room - char_width(s.last()));
            let m = fitting_tail(rest, room - char_width(s.last())) as int;
            assert(s.skip(s.len() - (m + 1)) =~= rest.skip(rest.len() - m).push(s.last()));
            lemma_byte_len_push(rest.skip(rest.len() - m), s.last());
            if byte_len(s) <= room {
                assert(s.skip(s.len() - (m + 1)) =~= s);
            }
        }
    }
}

/// The longest prefix of at most `room` bytes, as an owned text.
pub fn head_of(s: &str, room: usize) -> (out: String)
    ensures
        out@ == head_within(s@, room as int),
        byte_len(out@) <= room,
{
    let chars = chars_of(s);
    let mut left: usize = room;
    let mut i: usize = 0;
    assert(s@.skip(0) =~= s@);
    while i < chars.len()
        invariant
            i <= chars@.len(),
            chars@ == s@,
            fitting_head(s@, room as int) == i + fitting_head(s@.skip(i as int), left as int),
        ensures
            i == fitting_head(s@, room as int),
            i <= chars@.len(),
            chars@ == s@,
        decreases chars@.len() - i,
    {
        let w: usize = width_of(chars[i]);
        assert(s@.skip(i as int)[0] == s@[i as int]);
        if w > left {
            break;
        }
        assert(s@.skip(i as int).drop_first() =~= s@.skip(i + 1));
        left = left - w;
        i = i + 1;
    }
    assert(s@.take(i as int) =~= s@.subrange(0, i as int));
    proof {
        lemma_fitting_head(s@, room as int);
    }
    string_of(&chars, 0, i)
}

/// The longest suffix of at most `room` bytes, as an owned text.
pub fn tail_of(s: &str, room: usize) -> (out: String)
    ensures
        out@ == tail_within(s@, room as int),
        byte_len(out@) <= room,
{
    let chars = chars_of(s);
    let n: usize = chars.len();
    let mut left: usize = room;
    let mut i: usize = n;
    assert(s@.take(n as int) =~= s@);
    while i > 0
        invariant
            i <= n == chars@.len(),
            chars@ == s@,
            fitting_tail(s@, room as int) == (n - i) + fitting_tail(s@.take(i as int), left as int),
        ensures
            n - i == fitting_tail(s@, room as int),
            i <= n == chars@.len(),
            chars@ == s@,
        decreases i,
    {
        let w: usize = width_of(chars[i - 1]);
        assert(s@.take(i as int).last() == s@[i - 1]);
        if w > left {
            break;
        }
        assert(s@.take(i as int).drop_last() =~= s@.take(i - 1));
        left = left - w;
        i = i - 1;
    }
    assert(s@.skip(i as int) =~= s@.subrange(i as int, n as int));
    proof {
        lemma_fitting_tail(s@, room as int);
    }
    string_of(&chars, i, n)
}

} // verus!
