//! The canonical form of texts, trees and messages that fingerprints and cache
//! keys are made of: every part stands behind its own length.
use vstd::prelude::*;
use vstd::string::*;
use vstd::utf8::encode_utf8;

use crate::hash;
use crate::hash::Fnv1a64;
use crate::json;
use crate::json::{Json, Tree};
use crate::text;

verus! {

/// A text behind its length in bytes.
pub open spec fn frame(s: Seq<char>) -> Seq<char> {
    text::decimal(text::byte_len(s)) + ":"@ + s + "|"@
}

/// A frame cannot be mistaken: whatever follows two frames, the texts agree
/// where the wholes do, so that different parts never come to one canonical
/// form by where they are cut.
pub proof fn law_frames_are_unambiguous(a: Seq<char>, x: Seq<char>, b: Seq<char>, y: Seq<char>)
    requires
        frame(a) + x == frame(b) + y,
    ensures
        a == b,
        x == y,
{
    reveal_strlit(":");
    reveal_strlit("|");
    let m = text::byte_len(a);
    let n = text::byte_len(b);
    let left = text::decimal(m);
    let right = text::decimal(n);
    json::lemma_decimal_value(m);
    json::lemma_decimal_value(n);
    let whole = frame(a) + x;
    assert(whole == frame(b) + y);
    assert(whole[left.len() as int] == ':');
    assert(whole[right.len() as int] == ':');
    if left.len() < right.len() {
        assert(whole[left.len() as int] == right[left.len() as int]);
        assert(json::is_digit(right[left.len() as int]));
    } else if right.len() < left.len() {
        assert(whole[right.len() as int] == left[right.len() as int]);
        assert(json::is_digit(left[right.len() as int]));
    }
    assert(left =~= whole.take(left.len() as int));
    assert(right =~= whole.take(right.len() as int));
    assert(m == n);
    let rest = whole.skip(left.len() as int + 1);
    assert(rest =~= a + "|"@ + x);
    assert(rest =~= b + "|"@ + y);
    assert(a =~= rest.take(a.len() as int));
    assert(b =~= rest.take(b.len() as int));
    lemma_same_width(a, b, rest);
    assert(x =~= rest.skip(a.len() as int + 1));
    assert(y =~= rest.skip(b.len() as int + 1));
}

/// Two beginnings of a text that take the same number of bytes are equally long.
proof fn lemma_same_width(a: Seq<char>, b: Seq<char>, whole: Seq<char>)
    requires
        a.len() <= whole.len(),
        b.len() <= whole.len(),
        a == whole.take(a.len() as int),
        b == whole.take(b.len() as int),
        text::byte_len(a) == text::byte_len(b),
    ensures
        a.len() == b.len(),
{
    if a.len() < b.len() {
        let more = b.skip(a.len() as int);
        assert(b =~= a + more);
        text::lemma_byte_len_add(a, more);
        text::lemma_byte_len_at_least(more);
    } else if b.len() < a.len() {
        let more = a.skip(b.len() as int);
        assert(a =~= b + more);
        text::lemma_byte_len_add(b, more);
        text::lemma_byte_len_at_least(more);
    }
}

/// The canonical form of a tree.
pub open spec fn canonical(tree: Tree) -> Seq<char>
    decreases tree,
{
    match tree {
        Tree::Null => frame("null"@),
        Tree::Bool(b) => frame(
            if b {
                "true"@
            } else {
                "false"@
            },
        ),
        Tree::Number(n) => frame(n),
        Tree::Text(s) => frame(s),
        Tree::Array(items) => frame("["@) + canonical_items(items) + frame("]"@),
        Tree::Object(entries) => frame("{"@) + canonical_entries(entries) + frame("}"@),
    }
}

pub open spec fn canonical_items(items: Seq<Tree>) -> Seq<char>
    decreases items,
{
    if items.len() == 0 {
        Seq::empty()
    } else {
        canonical_items(items.subrange(0, items.len() - 1)) + canonical(items[items.len() - 1])
    }
}

pub open spec fn canonical_entries(entries: Seq<(Seq<char>, Tree)>) -> Seq<char>
    decreases entries,
{
    if entries.len() == 0 {
        Seq::empty()
    } else {
        canonical_entries(entries.subrange(0, entries.len() - 1)) + frame(
            entries[entries.len() - 1].0,
        ) + canonical(entries[entries.len() - 1].1)
    }
}

/// Appends a text behind its length.
pub fn canonical_push(output: &mut String, value: &str)
    ensures
        final(output)@ == old(output)@ + frame(value@),
{
    let count = text::decimal_of(text::byte_count(value) as u64);
    let ghost start = output@;
    output.append(count.as_str());
    output.append(":");
    output.append(value);
    output.append("|");
    assert(output@ =~= start + frame(value@));
}

/// Appends the canonical form of a value.
pub fn canonical_json(value: &Json, output: &mut String)
    ensures
        final(output)@ == old(output)@ + canonical(value@),
    decreases value@,
{
    broadcast use json::lemma_json_view;

    let ghost start = output@;
    match value {
        Json::Null => canonical_push(output, "null"),
        Json::Bool(b) => canonical_push(
            output,
            if *b {
                "true"
            } else {
                "false"
            },
        ),
        Json::Number(n) => canonical_push(output, n.as_str()),
        Json::Text(s) => canonical_push(output, s.as_str()),
        Json::Array(items) => {
            canonical_push(output, "[");
            let ghost head = output@;
            let ghost all = json::trees(items@);
            let mut i: usize = 0;
            assert(output@ =~= head + canonical_items(all.take(0)));
            while i < items.len()
                invariant
                    i <= items@.len(),
                    value@ == Tree::Array(all),
                    all == json::trees(items@),
                    output@ == head + canonical_items(all.take(i as int)),
                decreases items@.len() - i,
            {
                assert(decreases_to!(value@ => value@->Array_0[i as int]));
                canonical_json(&items[i], output);
                assert(all.take(i + 1).subrange(0, i as int) =~= all.take(i as int));
                assert(output@ =~= head + canonical_items(all.take(i + 1)));
                i = i + 1;
            }
            assert(all.take(all.len() as int) =~= all);
            canonical_push(output, "]");
            assert(output@ =~= start + canonical(value@));
        },
        Json::Object(entries) => {
            canonical_push(output, "{");
            let ghost head = output@;
            let ghost all = json::entry_trees(entries@);
            let mut i: usize = 0;
            assert(output@ =~= head + canonical_entries(all.take(0)));
            while i < entries.len()
                invariant
                    i <= entries@.len(),
                    value@ == Tree::Object(all),
                    all == json::entry_trees(entries@),
                    output@ == head + canonical_entries(all.take(i as int)),
                decreases entries@.len() - i,
            {
                assert(decreases_to!(value@ => value@->Object_0[i as int].1));
                let entry = &entries[i];
                canonical_push(output, entry.0.as_str());
                canonical_json(&entry.1, output);
                assert(all.take(i + 1).subrange(0, i as int) =~= all.take(i as int));
                assert(output@ =~= head + canonical_entries(all.take(i + 1)));
                i = i + 1;
            }
            assert(all.take(all.len() as int) =~= all);
            canonical_push(output, "}");
            assert(output@ =~= start + canonical(value@));
        },
    }
}

/// The state of a hash after a text.
pub open spec fn hashed(state: u64, s: Seq<char>) -> u64 {
    hash::fnv_from(state, encode_utf8(s))
}

proof fn lemma_hashed_add(state: u64, a: Seq<char>, b: Seq<char>)
    ensures
        hashed(state, a + b) == hashed(hashed(state, a), b),
{
    text::lemma_encode_add(a, b);
    hash::lemma_fnv_add(state, encode_utf8(a), encode_utf8(b));
}

fn hash_text(state: &mut Fnv1a64, s: &str)
    ensures
        final(state)@ == hashed(old(state)@, s@),
{
    state.write(s.as_bytes());
}

/// Hashes a text behind its length, without writing it out.
fn canonical_hash_push(state: &mut Fnv1a64, value: &str)
    ensures
        final(state)@ == hashed(old(state)@, frame(value@)),
{
    let count = text::decimal_of(text::byte_count(value) as u64);
    let ghost start = state@;
    let ghost a = text::decimal(text::byte_len(value@));
    hash_text(state, count.as_str());
    hash_text(state, ":");
    hash_text(state, value);
    hash_text(state, "|");
    proof {
        lemma_hashed_add(start, a, ":"@);
        lemma_hashed_add(start, a + ":"@, value@);
        lemma_hashed_add(start, a + ":"@ + value@, "|"@);
    }
}

/// Hashes the canonical form of a value, without writing it out.
fn canonical_json_hash(value: &Json, state: &mut Fnv1a64)
    ensures
        final(state)@ == hashed(old(state)@, canonical(value@)),
    decreases value@,
{
    broadcast use json::lemma_json_view;

    let ghost start = state@;
    match value {
        Json::Null => canonical_hash_push(state, "null"),
        Json::Bool(b) => canonical_hash_push(
            state,
            if *b {
                "true"
            } else {
                "false"
            },
        ),
        Json::Number(n) => canonical_hash_push(state, n.as_str()),
        Json::Text(s) => canonical_hash_push(state, s.as_str()),
        Json::Array(items) => {
            canonical_hash_push(state, "[");
            let ghost head = state@;
            let ghost all = json::trees(items@);
            let mut i: usize = 0;
            assert(encode_utf8(canonical_items(all.take(0))) =~= Seq::<u8>::empty());
            while i < items.len()
                invariant
                    i <= items@.len(),
                    value@ == Tree::Array(all),
                    all == json::trees(items@),
                    state@ == hashed(head, canonical_items(all.take(i as int))),
                decreases items@.len() - i,
            {
                assert(decreases_to!(value@ => value@->Array_0[i as int]));
                canonical_json_hash(&items[i], state);
                assert(all.take(i + 1).subrange(0, i as int) =~= all.take(i as int));
                proof {
                    lemma_hashed_add(
                        head,
                        canonical_items(all.take(i as int)),
                        canonical(all[i as int]),
                    );
                }
                i = i + 1;
            }
            assert(all.take(all.len() as int) =~= all);
            canonical_hash_push(state, "]");
            proof {
                lemma_hashed_add(start, frame("["@), canonical_items(all));
                lemma_hashed_add(start, frame("["@) + canonical_items(all), frame("]"@));
            }
        },
        Json::Object(entries) => {
            canonical_hash_push(state, "{");
            let ghost head = state@;
            let ghost all = json::entry_trees(entries@);
            let mut i: usize = 0;
            assert(encode_utf8(canonical_entries(all.take(0))) =~= Seq::<u8>::empty());
            while i < entries.len()
                invariant
                    i <= entries@.len(),
                    value@ == Tree::Object(all),
                    all == json::entry_trees(entries@),
                    state@ == hashed(head, canonical_entries(all.take(i as int))),
                decreases entries@.len() - i,
            {
                assert(decreases_to!(value@ => value@->Object_0[i as int].1));
                let entry = &entries[i];
                canonical_hash_push(state, entry.0.as_str());
                canonical_json_hash(&entry.1, state);
                assert(all.take(i + 1).subrange(0, i as int) =~= all.take(i as int));
                proof {
                    let before = canonical_entries(all.take(i as int));
                    let key = frame(all[i as int].0);
                    lemma_hashed_add(head, before, key);
                    lemma_hashed_add(head, before + key, canonical(all[i as int].1));
                }
                i = i + 1;
            }
            assert(all.take(all.len() as int) =~= all);
            canonical_hash_push(state, "}");
            proof {
                lemma_hashed_add(start, frame("{"@), canonical_entries(all));
                lemma_hashed_add(start, frame("{"@) + canonical_entries(all), frame("}"@));
            }
        },
    }
}

/// The fingerprint of a tree: the hash of its canonical form.
pub open spec fn fingerprint(tree: Tree) -> u64 {
    hash::fnv(encode_utf8(canonical(tree)))
}

pub fn json_value_fingerprint(value: &Json) -> (r: u64)
    ensures
        r == fingerprint(value@),
{
    let mut state = Fnv1a64::new();
    canonical_json_hash(value, &mut state);
    state.finish()
}

/// The hash of a text.
pub open spec fn text_hash(s: Seq<char>) -> u64 {
    hash::fnv(encode_utf8(s))
}

pub fn hash_of(s: &str) -> (r: u64)
    ensures
        r == text_hash(s@),
{
    hash::fnv1a64(s.as_bytes())
}

} // verus!
