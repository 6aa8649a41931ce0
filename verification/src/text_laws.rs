//! What the operations on texts keep: a text that was taken apart can be put together
//! again, and a text that was changed is changed nowhere else.
use vstd::prelude::*;
use vstd::string::*;

use crate::text;

verus! {

proof fn lemma_join_last(parts: Seq<Seq<char>>, sep: Seq<char>, more: Seq<char>)
    requires
        parts.len() > 0,
    ensures
        text::join(parts.drop_last().push(parts.last() + more), sep) == text::join(parts, sep)
            + more,
{
    let longer = parts.drop_last().push(parts.last() + more);
    assert(longer.drop_last() =~= parts.drop_last());
    if parts.len() == 1 {
        assert(text::join(longer, sep) =~= text::join(parts, sep) + more);
    } else {
        assert(text::join(longer, sep) =~= text::join(parts, sep) + more);
    }
}

/// The parts of a text make up the text again, a separator between each two, and no
/// separator stands within a part.
pub proof fn law_split_parts_join_back(s: Seq<char>, sep: char)
    ensures
        text::split(s, sep).len() > 0,
        text::join(text::split(s, sep), seq![sep]) == s,
        forall|i: int|
            0 <= i < text::split(s, sep).len() ==> !(#[trigger] text::split(s, sep)[i]).contains(
                sep,
            ),
    decreases s.len(),
{
    let parts = text::split(s, sep);
    if s.len() == 0 {
        assert(parts[0] =~= s);
    } else {
        let front = s.drop_last();
        law_split_parts_join_back(front, sep);
        let before = text::split(front, sep);
        let c = s.last();
        assert(s =~= front.push(c));
        if c == sep {
            let none = Seq::<char>::empty();
            assert(parts.drop_last() =~= before);
            assert(text::join(parts, seq![sep]) =~= text::join(before, seq![sep]) + seq![sep]
                + none);
            assert(text::join(parts, seq![sep]) =~= s);
            assert forall|i: int| 0 <= i < parts.len() implies !(#[trigger] parts[i]).contains(
                sep,
            ) by {
                if i < before.len() {
                    assert(parts[i] == before[i]);
                }
            }
        } else {
            let last = before.last();
            assert(last.push(c) =~= last + seq![c]);
            lemma_join_last(before, seq![sep], seq![c]);
            assert(text::join(parts, seq![sep]) =~= s);
            assert forall|i: int| 0 <= i < parts.len() implies !(#[trigger] parts[i]).contains(
                sep,
            ) by {
                if i < before.len() - 1 {
                    assert(parts[i] == before[i]);
                } else {
                    assert(parts[i] == last.push(c));
                    assert(before[before.len() - 1] == last);
                    if parts[i].contains(sep) {
                        let k = choose|k: int| 0 <= k < parts[i].len() && parts[i][k] == sep;
                        if k < last.len() {
                            assert(last[k] == sep);
                        }
                    }
                }
            }
        }
    }
}

/// Cutting a text at the first place of a character keeps all else, and leaves that
/// character in no part before the cut.
pub proof fn law_cut_texts_join_back(s: Seq<char>, c: char)
    ensures
        match text::split_once(s, c) {
            Some((a, b)) => a + seq![c] + b == s && !a.contains(c),
            None => !s.contains(c),
        },
{
    lemma_char_from(s, c, 0);
    if let Some((a, b)) = text::split_once(s, c) {
        assert(a + seq![c] + b =~= s);
    }
}

proof fn lemma_char_from(s: Seq<char>, c: char, from: int)
    requires
        0 <= from,
    ensures
        match text::char_from(s, c, from) {
            Some(i) => from <= i < s.len() && s[i] == c && forall|j: int|
                from <= j < i ==> #[trigger] s[j] != c,
            None => forall|j: int| from <= j < s.len() ==> #[trigger] s[j] != c,
        },
    decreases s.len() - from,
{
    if from < s.len() && s[from] != c {
        lemma_char_from(s, c, from + 1);
    }
}

/// What follows the last place of a character is the end of the text, and the
/// character stands right before it or nowhere.
pub proof fn law_last_parts_end_the_text(s: Seq<char>, c: char)
    ensures
        ({
            let part = text::last_part(s, c);
            &&& part.is_suffix_of(s)
            &&& !part.contains(c)
            &&& part.len() < s.len() ==> s[s.len() - part.len() - 1] == c
        }),
    decreases s.len(),
{
    let part = text::last_part(s, c);
    if s.len() > 0 && s.last() != c {
        let front = s.drop_last();
        law_last_parts_end_the_text(front, c);
        let inner = text::last_part(front, c);
        assert(part =~= s.subrange(s.len() - part.len(), s.len() as int));
        if part.contains(c) {
            let k = choose|k: int| 0 <= k < part.len() && part[k] == c;
            if k < inner.len() {
                assert(inner[k] == c);
            }
        }
    } else {
        assert(part =~= s.subrange(s.len() - part.len(), s.len() as int));
    }
}

/// Small letters stand for the capitals of the alphabet alone, character by character;
/// a text in small letters stays as it is.
pub proof fn law_lowering_changes_capitals_alone(s: Seq<char>, i: int)
    requires
        0 <= i < s.len(),
    ensures
        text::lower(s).len() == s.len(),
        'A' <= s[i] <= 'Z' ==> text::lower(s)[i] as u32 == s[i] as u32 + 32,
        !('A' <= s[i] <= 'Z') ==> text::lower(s)[i] == s[i],
        text::lower(text::lower(s)) == text::lower(s),
{
    assert forall|k: int| 0 <= k < s.len() implies text::lower_char(
        #[trigger] text::lower(s)[k],
    ) == text::lower(s)[k] by {}
    assert(text::lower(text::lower(s)) =~= text::lower(s));
}

/// The lines of a text hold no line feed.
pub proof fn law_lines_hold_no_line_feed(s: Seq<char>, i: int)
    requires
        0 <= i < text::lines(s).len(),
    ensures
        !text::lines(s)[i].contains('\n'),
{
    law_split_parts_join_back(s, '\n');
    let parts = text::split(s, '\n');
    let line = text::lines(s)[i];
    assert(!parts[i].contains('\n'));
    if line.contains('\n') {
        let k = choose|k: int| 0 <= k < line.len() && line[k] == '\n';
        assert(parts[i][k] == '\n');
    }
}

/// Different bytes are written differently in hexadecimal.
pub proof fn law_hex_tells_bytes_apart(a: Seq<u8>, b: Seq<u8>)
    requires
        text::hex(a) == text::hex(b),
    ensures
        a == b,
{
    assert(text::hex(a).len() == 2 * a.len());
    assert(text::hex(b).len() == 2 * b.len());
    assert forall|i: int| 0 <= i < a.len() implies a[i] == b[i] by {
        assert(text::hex(a)[2 * i] == text::hex_digit(a[i] as int / 16));
        assert(text::hex(b)[2 * i] == text::hex_digit(b[i] as int / 16));
        assert((2 * i + 1) / 2 == i);
        assert(text::hex(a)[2 * i + 1] == text::hex_digit(a[i] as int % 16));
        assert(text::hex(b)[2 * i + 1] == text::hex_digit(b[i] as int % 16));
        lemma_digits(a[i] as int / 16, b[i] as int / 16);
        lemma_digits(a[i] as int % 16, b[i] as int % 16);
    }
    assert(a =~= b);
}

proof fn lemma_digits(m: int, n: int)
    requires
        0 <= m < 16,
        0 <= n < 16,
        text::hex_digit(m) == text::hex_digit(n),
    ensures
        m == n,
{
}

} // verus!
