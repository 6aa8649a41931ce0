//! JSON values as the library's own tree, read and written by `serde_json`.
use vstd::prelude::*;
use vstd::string::*;
use vstd::utf8::*;
use crate::text;

verus! {

/// A JSON value. The entries of an object stand in the order of their keys,
/// each key once; a number is held by its decimal text.
#[derive(Debug, PartialEq, Eq)]
pub enum Json {
    Null,
    Bool(bool),
    Number(String),
    Text(String),
    Array(Vec<Json>),
    Object(Vec<(String, Json)>),
}

/// What a JSON value is.
pub enum Tree {
    Null,
    Bool(bool),
    Number(Seq<char>),
    Text(Seq<char>),
    Array(Seq<Tree>),
    Object(Seq<(Seq<char>, Tree)>),
}

impl View for Json {
    type V = Tree;

    open spec fn view(&self) -> Tree
        decreases self,
    {
        match self {
            Json::Null => Tree::Null,
            Json::Bool(b) => Tree::Bool(*b),
            Json::Number(n) => Tree::Number(n@),
            Json::Text(s) => Tree::Text(s@),
            Json::Array(items) => Tree::Array(
                Seq::new(
                    items@.len(),
                    |i: int|
                        if 0 <= i < items@.len() {
                            items@[i].view()
                        } else {
                            Tree::Null
                        },
                ),
            ),
            Json::Object(entries) => Tree::Object(
                Seq::<(Seq<char>, Tree)>::new(
                    entries@.len(),
                    |i: int| (entries@[i].0@, if 0 <= i < entries@.len() {
                            entries@[i].1.view()
                        } else {
                            Tree::Null
                        }),
                ),
            ),
        }
    }
}

/// The trees of a sequence of values.
pub open spec fn trees(items: Seq<Json>) -> Seq<Tree> {
    items.map_values(|j: Json| j@)
}

/// The keys and trees of the entries of an object.
pub open spec fn entry_trees(entries: Seq<(String, Json)>) -> Seq<(Seq<char>, Tree)> {
    entries.map_values(|e: (String, Json)| (e.0@, e.1@))
}

/// The view of an array is the array of the views, that of an object keeps its keys.
pub broadcast proof fn lemma_json_view(j: Json)
    ensures
        #![trigger j@]
        j matches Json::Array(items) ==> j@ == Tree::Array(trees(items@)),
        j matches Json::Object(entries) ==> j@ == Tree::Object(entry_trees(entries@)),
{
    match j {
        Json::Array(items) => {
            assert(j@->Array_0 =~= trees(items@));
        },
        Json::Object(entries) => {
            assert(j@->Object_0 =~= entry_trees(entries@));
        },
        _ => {},
    }
}

/// The order of texts by their characters, which is that of their UTF-8 bytes.
pub open spec fn text_less(a: Seq<char>, b: Seq<char>) -> bool
    decreases a.len(),
{
    if b.len() == 0 {
        false
    } else if a.len() == 0 {
        true
    } else if a[0] == b[0] {
        text_less(a.drop_first(), b.drop_first())
    } else {
        a[0] < b[0]
    }
}

/// Whether one text stands before another.
pub fn less(a: &str, b: &str) -> (r: bool)
    ensures
        r == text_less(a@, b@),
{
    let ac = text::chars_of(a);
    let bc = text::chars_of(b);
    let mut i: usize = 0;
    assert(a@.skip(0) =~= a@);
    assert(b@.skip(0) =~= b@);
    while i < ac.len() && i < bc.len() && ac[i] == bc[i]
        invariant
            i <= ac@.len(),
            i <= bc@.len(),
            ac@ == a@,
            bc@ == b@,
            text_less(a@, b@) == text_less(a@.skip(i as int), b@.skip(i as int)),
        decreases ac@.len() - i,
    {
        assert(a@.skip(i as int).drop_first() =~= a@.skip(i + 1));
        assert(b@.skip(i as int).drop_first() =~= b@.skip(i + 1));
        i = i + 1;
    }
    if i == bc.len() {
        false
    } else if i == ac.len() {
        true
    } else {
        ac[i] < bc[i]
    }
}

/// The value that an object holds under a key.
pub open spec fn lookup(entries: Seq<(Seq<char>, Tree)>, key: Seq<char>) -> Option<Tree>
    decreases entries.len(),
{
    if entries.len() == 0 {
        None
    } else if entries.last().0 == key {
        Some(entries.last().1)
    } else {
        lookup(entries.drop_last(), key)
    }
}

/// An object's entries with a key set: replaced where it stands, else put at its
/// place in the order.
pub open spec fn put(
    entries: Seq<(Seq<char>, Tree)>,
    key: Seq<char>,
    value: Tree,
) -> Seq<(Seq<char>, Tree)>
    decreases entries.len(),
{
    if entries.len() == 0 {
        seq![(key, value)]
    } else if entries.last().0 == key {
        entries.drop_last().push((key, value))
    } else if text_less(entries.last().0, key) {
        entries.push((key, value))
    } else {
        put(entries.drop_last(), key, value).push(entries.last())
    }
}

/// An object's entries without a key.
pub open spec fn removed(
    entries: Seq<(Seq<char>, Tree)>,
    key: Seq<char>,
) -> Seq<(Seq<char>, Tree)>
    decreases entries.len(),
{
    if entries.len() == 0 {
        entries
    } else if entries.last().0 == key {
        removed(entries.drop_last(), key)
    } else {
        removed(entries.drop_last(), key).push(entries.last())
    }
}

/// Whether the keys of an object stand in strict order.
pub open spec fn ordered(entries: Seq<(Seq<char>, Tree)>) -> bool {
    forall|i: int, j: int|
        0 <= i < j < entries.len() ==> text_less(#[trigger] entries[i].0, #[trigger] entries[j].0)
}

/// Putting the entries into an empty object, one after another.
pub open spec fn put_all(entries: Seq<(Seq<char>, Tree)>) -> Seq<(Seq<char>, Tree)>
    decreases entries.len(),
{
    if entries.len() == 0 {
        entries
    } else {
        put(put_all(entries.drop_last()), entries.last().0, entries.last().1)
    }
}

pub proof fn lemma_text_less_irreflexive(a: Seq<char>)
    ensures
        !text_less(a, a),
    decreases a.len(),
{
    if a.len() > 0 {
        lemma_text_less_irreflexive(a.drop_first());
    }
}

pub proof fn lemma_text_less_transitive(a: Seq<char>, b: Seq<char>, c: Seq<char>)
    requires
        text_less(a, b),
        text_less(b, c),
    ensures
        text_less(a, c),
    decreases a.len(),
{
    if a.len() > 0 && a[0] == b[0] && b[0] == c[0] {
        lemma_text_less_transitive(a.drop_first(), b.drop_first(), c.drop_first());
    }
}

pub proof fn lemma_text_less_total(a: Seq<char>, b: Seq<char>)
    ensures
        text_less(a, b) || text_less(b, a) || a == b,
    decreases a.len(),
{
    if a.len() > 0 && b.len() > 0 && a[0] == b[0] {
        lemma_text_less_total(a.drop_first(), b.drop_first());
        if a.drop_first() == b.drop_first() {
            assert(a =~= seq![a[0]] + a.drop_first());
            assert(b =~= seq![b[0]] + b.drop_first());
        }
    } else if a.len() == 0 && b.len() == 0 {
        assert(a =~= b);
    }
}

/// A key that was set is found with its value, and no other key changes.
pub proof fn lemma_put_lookup(
    entries: Seq<(Seq<char>, Tree)>,
    key: Seq<char>,
    value: Tree,
    other: Seq<char>,
)
    ensures
        lookup(put(entries, key, value), key) == Some(value),
        other != key ==> lookup(put(entries, key, value), other) == lookup(entries, other),
    decreases entries.len(),
{
    let after = put(entries, key, value);
    if entries.len() == 0 {
        assert(after.drop_last() =~= Seq::empty());
    } else {
        let front = entries.drop_last();
        assert(after.drop_last() =~= if entries.last().0 == key {
            front
        } else if text_less(entries.last().0, key) {
            entries
        } else {
            put(front, key, value)
        });
        if entries.last().0 != key && !text_less(entries.last().0, key) {
            lemma_put_lookup(front, key, value, other);
        }
    }
}

/// Setting a key keeps the entries in order.
pub proof fn lemma_put_ordered(entries: Seq<(Seq<char>, Tree)>, key: Seq<char>, value: Tree)
    requires
        ordered(entries),
    ensures
        ordered(put(entries, key, value)),
        forall|i: int|
            0 <= i < put(entries, key, value).len() ==> (#[trigger] put(entries, key, value)[i].0
                == key || exists|j: int|
                0 <= j < entries.len() && entries[j].0 == put(entries, key, value)[i].0),
    decreases entries.len(),
{
    let after = put(entries, key, value);
    if entries.len() > 0 {
        let front = entries.drop_last();
        let last = entries.last();
        assert(ordered(front));
        if last.0 == key {
            assert forall|i: int| 0 <= i < after.len() implies (#[trigger] after[i].0 == key
                || exists|j: int| 0 <= j < entries.len() && entries[j].0 == after[i].0) by {
                assert(entries[i].0 == after[i].0);
            }
        } else if text_less(last.0, key) {
            assert forall|i: int, j: int| 0 <= i < j < after.len() implies text_less(
                #[trigger] after[i].0,
                #[trigger] after[j].0,
            ) by {
                if j == entries.len() && i < entries.len() - 1 {
                    lemma_text_less_transitive(entries[i].0, last.0, key);
                }
            }
            assert forall|i: int| 0 <= i < after.len() implies (#[trigger] after[i].0 == key
                || exists|j: int| 0 <= j < entries.len() && entries[j].0 == after[i].0) by {
                if i < entries.len() {
                    assert(entries[i].0 == after[i].0);
                }
            }
        } else {
            lemma_put_ordered(front, key, value);
            lemma_text_less_total(last.0, key);
            let inner = put(front, key, value);
            assert forall|i: int, j: int| 0 <= i < j < after.len() implies text_less(
                #[trigger] after[i].0,
                #[trigger] after[j].0,
            ) by {
                if j == inner.len() {
                    if inner[i].0 != key {
                        let k = choose|k: int| 0 <= k < front.len() && front[k].0 == inner[i].0;
                        assert(entries[k].0 == front[k].0);
                        assert(entries[entries.len() - 1].0 == last.0);
                    }
                }
            }
            assert forall|i: int| 0 <= i < after.len() implies (#[trigger] after[i].0 == key
                || exists|j: int| 0 <= j < entries.len() && entries[j].0 == after[i].0) by {
                if i < inner.len() {
                    assert(inner[i].0 == after[i].0);
                    if inner[i].0 != key {
                        let k = choose|k: int| 0 <= k < front.len() && front[k].0 == inner[i].0;
                        assert(entries[k].0 == after[i].0);
                    }
                } else {
                    assert(entries[entries.len() - 1].0 == after[i].0);
                }
            }
        }
    }
}

/// Entries that stand in order are what putting them in one by one gives.
pub proof fn lemma_put_all_ordered(entries: Seq<(Seq<char>, Tree)>)
    requires
        ordered(entries),
    ensures
        put_all(entries) == entries,
    decreases entries.len(),
{
    if entries.len() > 0 {
        let front = entries.drop_last();
        assert(ordered(front));
        lemma_put_all_ordered(front);
        assert(front.push((entries.last().0, entries.last().1)) =~= entries);
        if front.len() > 0 {
            assert(entries[entries.len() - 2].0 == front.last().0);
            assert(text_less(entries[entries.len() - 2].0, entries[entries.len() - 1].0));
            lemma_text_less_irreflexive(front.last().0);
        }
    }
}

impl Tree {
    /// What an object holds under a key; nothing for any other value.
    pub open spec fn get(self, key: Seq<char>) -> Option<Tree> {
        match self {
            Tree::Object(entries) => lookup(entries, key),
            _ => None,
        }
    }

    pub open spec fn text(self) -> Option<Seq<char>> {
        match self {
            Tree::Text(s) => Some(s),
            _ => None,
        }
    }

    pub open spec fn items(self) -> Option<Seq<Tree>> {
        match self {
            Tree::Array(items) => Some(items),
            _ => None,
        }
    }

    pub open spec fn unsigned(self) -> Option<u64> {
        match self {
            Tree::Number(n) => number_u64(n),
            _ => None,
        }
    }

    pub open spec fn signed(self) -> Option<i64> {
        match self {
            Tree::Number(n) => number_i64(n),
            _ => None,
        }
    }

    pub open spec fn signed_at(self, key: Seq<char>) -> Option<i64> {
        match self.get(key) {
            Some(tree) => tree.signed(),
            None => None,
        }
    }

    /// The text under a key, where there is one.
    pub open spec fn text_at(self, key: Seq<char>) -> Option<Seq<char>> {
        match self.get(key) {
            Some(v) => v.text(),
            None => None,
        }
    }

    pub open spec fn items_at(self, key: Seq<char>) -> Option<Seq<Tree>> {
        match self.get(key) {
            Some(v) => v.items(),
            None => None,
        }
    }

    pub open spec fn unsigned_at(self, key: Seq<char>) -> Option<u64> {
        match self.get(key) {
            Some(v) => v.unsigned(),
            None => None,
        }
    }

    /// An object with a key set; any other value as it is.
    pub open spec fn with(self, key: Seq<char>, value: Tree) -> Tree {
        match self {
            Tree::Object(entries) => Tree::Object(put(entries, key, value)),
            other => other,
        }
    }

    pub open spec fn without(self, key: Seq<char>) -> Tree {
        match self {
            Tree::Object(entries) => Tree::Object(removed(entries, key)),
            other => other,
        }
    }
}

/// A key that was set is found with its value, and no other key changes.
pub proof fn law_set_key_is_found(tree: Tree, key: Seq<char>, value: Tree, other: Seq<char>)
    requires
        tree is Object,
    ensures
        tree.with(key, value) is Object,
        tree.with(key, value).get(key) == Some(value),
        other != key ==> tree.with(key, value).get(other) == tree.get(other),
{
    lemma_put_lookup(tree->Object_0, key, value, other);
}

proof fn lemma_removed_lookup(
    entries: Seq<(Seq<char>, Tree)>,
    key: Seq<char>,
    other: Seq<char>,
)
    ensures
        lookup(removed(entries, key), key) is None,
        other != key ==> lookup(removed(entries, key), other) == lookup(entries, other),
    decreases entries.len(),
{
    if entries.len() > 0 {
        lemma_removed_lookup(entries.drop_last(), key, other);
        if entries.last().0 != key {
            let rest = removed(entries.drop_last(), key);
            assert(rest.push(entries.last()).drop_last() =~= rest);
        }
    }
}

/// A key that was taken out is gone, and no other key changes.
pub proof fn law_removed_key_is_gone(tree: Tree, key: Seq<char>, other: Seq<char>)
    requires
        tree is Object,
    ensures
        tree.without(key) is Object,
        tree.without(key).get(key) is None,
        other != key ==> tree.without(key).get(other) == tree.get(other),
{
    lemma_removed_lookup(tree->Object_0, key, other);
}

/// What is found under a key of an object in which a key was set.
pub broadcast proof fn lemma_key_set(tree: Tree, key: Seq<char>, value: Tree, other: Seq<char>)
    requires
        tree is Object,
    ensures
        #[trigger] tree.with(key, value).get(other) == (if other == key {
            Some(value)
        } else {
            tree.get(other)
        }),
{
    law_set_key_is_found(tree, key, value, other);
}

/// What is found under a key of an object out of which a key was taken.
pub broadcast proof fn lemma_key_removed(tree: Tree, key: Seq<char>, other: Seq<char>)
    requires
        tree is Object,
    ensures
        #[trigger] tree.without(key).get(other) == (if other == key {
            None
        } else {
            tree.get(other)
        }),
{
    law_removed_key_is_gone(tree, key, other);
}

/// What stands under a key of what stands under a key.
pub open spec fn under(tree: Tree, a: Seq<char>, b: Seq<char>) -> Option<Tree> {
    match tree.get(a) {
        Some(inner) => inner.get(b),
        None => None,
    }
}

/// The object without entries.
pub open spec fn empty_object() -> Tree {
    Tree::Object(Seq::empty())
}

pub open spec fn is_digit(c: char) -> bool {
    '0' <= c <= '9'
}

pub open spec fn all_digits(s: Seq<char>) -> bool {
    forall|i: int| 0 <= i < s.len() ==> is_digit(#[trigger] s[i])
}

/// The number that decimal digits stand for.
pub open spec fn digits_value(s: Seq<char>) -> nat
    decreases s.len(),
{
    if s.len() == 0 {
        0
    } else {
        10 * digits_value(s.drop_last()) + (s.last() as nat - 48) as nat
    }
}

/// The unsigned number that a text stands for: digits alone, within 64 bits.
pub open spec fn number_u64(s: Seq<char>) -> Option<u64> {
    if s.len() > 0 && all_digits(s) && digits_value(s) <= u64::MAX {
        Some(digits_value(s) as u64)
    } else {
        None
    }
}

pub proof fn lemma_decimal_value(n: nat)
    ensures
        text::decimal(n).len() > 0,
        all_digits(text::decimal(n)),
        digits_value(text::decimal(n)) == n,
    decreases n,
{
    if n < 10 {
        assert(seq![text::digit(n)].drop_last() =~= Seq::empty());
        assert(digits_value(seq![text::digit(n)].drop_last()) == 0);
    } else {
        lemma_decimal_value(n / 10);
        assert(text::decimal(n).drop_last() =~= text::decimal(n / 10));
    }
}

proof fn lemma_digits_prefix(s: Seq<char>, i: int)
    requires
        0 <= i <= s.len(),
        all_digits(s),
    ensures
        digits_value(s.take(i)) <= digits_value(s),
    decreases s.len(),
{
    if i < s.len() {
        lemma_digits_prefix(s.drop_last(), i);
        assert(s.drop_last().take(i) =~= s.take(i));
        assert(is_digit(s[s.len() - 1]));
    } else {
        assert(s.take(i) =~= s);
    }
}

/// The unsigned number that a text of digits stands for.
pub fn parse_u64(s: &str) -> (r: Option<u64>)
    ensures
        r == number_u64(s@),
{
    let chars = text::chars_of(s);
    if chars.len() == 0 {
        return None;
    }
    let mut i: usize = 0;
    while i < chars.len()
        invariant
            i <= chars@.len(),
            chars@ == s@,
            forall|k: int| 0 <= k < i ==> is_digit(#[trigger] s@[k]),
        decreases chars@.len() - i,
    {
        if chars[i] < '0' || chars[i] > '9' {
            assert(!is_digit(s@[i as int]));
            return None;
        }
        i = i + 1;
    }
    let mut n: u64 = 0;
    let mut k: usize = 0;
    while k < chars.len()
        invariant
            k <= chars@.len(),
            chars@ == s@,
            all_digits(s@),
            n == digits_value(s@.take(k as int)),
        decreases chars@.len() - k,
    {
        let d: u64 = (chars[k] as u32 - 48) as u64;
        assert(is_digit(s@[k as int]));
        assert(s@.take(k + 1).drop_last() =~= s@.take(k as int));
        assert(digits_value(s@.take(k + 1)) == 10 * n + d);
        if n > (u64::MAX - d) / 10 {
            proof {
                lemma_digits_prefix(s@, k + 1);
                assert(10 * n + d > u64::MAX);
            }
            return None;
        }
        n = 10 * n + d;
        k = k + 1;
    }
    assert(s@.take(k as int) =~= s@);
    Some(n)
}

/// The signed number that a text stands for: digits, with or without a minus
/// sign, within 64 bits.
pub open spec fn number_i64(s: Seq<char>) -> Option<i64> {
    if s.len() > 0 && s[0] == '-' {
        match number_u64(s.skip(1)) {
            Some(n) => if n <= 0x8000_0000_0000_0000u64 {
                Some((-(n as int)) as i64)
            } else {
                None
            },
            None => None,
        }
    } else {
        match number_u64(s) {
            Some(n) => if n <= 0x7fff_ffff_ffff_ffffu64 {
                Some(n as i64)
            } else {
                None
            },
            None => None,
        }
    }
}

/// The signed number that a text of digits stands for.
pub fn parse_i64(s: &str) -> (r: Option<i64>)
    ensures
        r == number_i64(s@),
{
    let chars = text::chars_of(s);
    if chars.len() > 0 && chars[0] == '-' {
        let digits = text::string_of(&chars, 1, chars.len());
        assert(digits@ =~= s@.skip(1));
        match parse_u64(digits.as_str()) {
            Some(n) => if n < 0x8000_0000_0000_0000 {
                Some(-(n as i64))
            } else if n == 0x8000_0000_0000_0000 {
                Some(i64::MIN)
            } else {
                None
            },
            None => None,
        }
    } else {
        match parse_u64(s) {
            Some(n) => if n <= 0x7fff_ffff_ffff_ffff {
                Some(n as i64)
            } else {
                None
            },
            None => None,
        }
    }
}

/// `serde_json::Value`.
#[verifier::external_type_specification]
#[verifier::external_body]
pub struct ExValue(serde_json::Value);

/// The JSON tree that a `serde_json::Value` holds.
pub uninterp spec fn value_tree(value: serde_json::Value) -> Tree;

/// What `serde_json::from_str` reads a text as, or the message it fails with.
pub uninterp spec fn parsed(text: Seq<char>) -> Result<Tree, Seq<char>>;

/// What `serde_json::from_slice` reads bytes as, or the message it fails with.
pub uninterp spec fn parsed_bytes(bytes: Seq<u8>) -> Result<Tree, Seq<char>>;

/// The compact text that `serde_json::to_string` writes for a tree.
pub uninterp spec fn written(tree: Tree) -> Seq<char>;

/// The indented text that `serde_json::to_string_pretty` writes for a tree.
pub uninterp spec fn written_pretty(tree: Tree) -> Seq<char>;

/// What a number's text becomes as a `serde_json` value.
pub uninterp spec fn number_tree(text: Seq<char>) -> Tree;

/// How many levels `serde_json` reads into one another.
pub const MAX_READ_LEVELS: usize = 127;

/// A tree that `serde_json` reads back as it was written: each number is an
/// unsigned 64-bit number in decimal, the keys of each object stand in order, and
/// no more than `levels` arrays and objects stand in one another.
pub open spec fn keeps(tree: Tree, levels: nat) -> bool
    decreases tree,
{
    match tree {
        Tree::Number(n) => exists|k: u64| n == #[trigger] text::decimal(k as nat),
        Tree::Array(items) => levels > 0 && forall|i: int|
            0 <= i < items.len() ==> keeps(#[trigger] items[i], (levels - 1) as nat),
        Tree::Object(entries) => levels > 0 && ordered(entries) && forall|i: int|
            0 <= i < entries.len() ==> keeps((#[trigger] entries[i]).1, (levels - 1) as nat),
        _ => true,
    }
}

proof fn lemma_put_members(entries: Seq<(Seq<char>, Tree)>, key: Seq<char>, value: Tree)
    ensures
        forall|i: int|
            0 <= i < put(entries, key, value).len() ==> #[trigger] put(entries, key, value)[i] == (
                key,
                value,
            ) || entries.contains(put(entries, key, value)[i]),
    decreases entries.len(),
{
    let after = put(entries, key, value);
    if entries.len() > 0 {
        let front = entries.drop_last();
        lemma_put_members(front, key, value);
        assert forall|i: int| 0 <= i < after.len() implies #[trigger] after[i] == (key, value)
            || entries.contains(after[i]) by {
            if entries.last().0 == key || text_less(entries.last().0, key) {
                if i < entries.len() && after[i] != (key, value) {
                    assert(entries[i] == after[i]);
                }
            } else {
                let inner = put(front, key, value);
                if i < inner.len() {
                    assert(inner[i] == after[i]);
                    if front.contains(inner[i]) {
                        let j = choose|j: int| 0 <= j < front.len() && front[j] == inner[i];
                        assert(entries[j] == after[i]);
                    }
                } else {
                    assert(entries[entries.len() - 1] == after[i]);
                }
            }
        }
    }
}

/// Setting a key keeps a tree readable.
pub broadcast proof fn lemma_keeps_with(tree: Tree, key: Seq<char>, value: Tree, levels: nat)
    requires
        tree is Object,
        levels > 0,
        keeps(tree, levels),
        keeps(value, (levels - 1) as nat),
    ensures
        #[trigger] keeps(tree.with(key, value), levels),
{
    let entries = tree->Object_0;
    let after = put(entries, key, value);
    lemma_put_ordered(entries, key, value);
    lemma_put_members(entries, key, value);
    assert forall|i: int| 0 <= i < after.len() implies keeps(
        (#[trigger] after[i]).1,
        (levels - 1) as nat,
    ) by {
        if after[i] != (key, value) {
            let j = choose|j: int| 0 <= j < entries.len() && entries[j] == after[i];
            assert(keeps(entries[j].1, (levels - 1) as nat));
        }
    }
}

proof fn lemma_removed_kept(entries: Seq<(Seq<char>, Tree)>, key: Seq<char>)
    requires
        ordered(entries),
    ensures
        ordered(removed(entries, key)),
        forall|i: int|
            0 <= i < removed(entries, key).len() ==> entries.contains(
                #[trigger] removed(entries, key)[i],
            ),
    decreases entries.len(),
{
    if entries.len() > 0 {
        let front = entries.drop_last();
        assert(ordered(front));
        lemma_removed_kept(front, key);
        let inner = removed(front, key);
        let after = removed(entries, key);
        assert forall|i: int| 0 <= i < after.len() implies entries.contains(
            #[trigger] after[i],
        ) by {
            if i < inner.len() {
                assert(inner[i] == after[i]);
                let j = choose|j: int| 0 <= j < front.len() && front[j] == inner[i];
                assert(entries[j] == after[i]);
            } else {
                assert(entries[entries.len() - 1] == after[i]);
            }
        }
        assert forall|i: int, j: int| 0 <= i < j < after.len() implies text_less(
            #[trigger] after[i].0,
            #[trigger] after[j].0,
        ) by {
            if j == inner.len() {
                assert(inner[i] == after[i]);
                let k = choose|k: int| 0 <= k < front.len() && front[k] == inner[i];
                assert(entries[k].0 == after[i].0);
                assert(entries[entries.len() - 1].0 == after[j].0);
            } else {
                assert(inner[i] == after[i] && inner[j] == after[j]);
            }
        }
    }
}

/// Removing a key keeps a tree readable.
pub broadcast proof fn lemma_keeps_without(tree: Tree, key: Seq<char>, levels: nat)
    requires
        keeps(tree, levels),
    ensures
        #[trigger] keeps(tree.without(key), levels),
{
    if let Tree::Object(entries) = tree {
        lemma_removed_kept(entries, key);
        let after = removed(entries, key);
        assert forall|i: int| 0 <= i < after.len() implies keeps(
            (#[trigger] after[i]).1,
            (levels - 1) as nat,
        ) by {
            let j = choose|j: int| 0 <= j < entries.len() && entries[j] == after[i];
            assert(keeps(entries[j].1, (levels - 1) as nat));
        }
    }
}

/// What is readable within some levels is readable within more.
pub proof fn lemma_keeps_more(tree: Tree, levels: nat, more: nat)
    requires
        keeps(tree, levels),
        levels <= more,
    ensures
        keeps(tree, more),
    decreases tree,
{
    match tree {
        Tree::Array(items) => {
            assert forall|i: int| 0 <= i < items.len() implies keeps(
                #[trigger] items[i],
                (more - 1) as nat,
            ) by {
                lemma_keeps_more(items[i], (levels - 1) as nat, (more - 1) as nat);
            }
        },
        Tree::Object(entries) => {
            assert forall|i: int| 0 <= i < entries.len() implies keeps(
                (#[trigger] entries[i]).1,
                (more - 1) as nat,
            ) by {
                lemma_keeps_more(entries[i].1, (levels - 1) as nat, (more - 1) as nat);
            }
        },
        _ => {},
    }
}

/// What is found in a readable tree is readable.
pub proof fn lemma_keeps_found(tree: Tree, key: Seq<char>, levels: nat)
    requires
        keeps(tree, levels),
    ensures
        tree.get(key) matches Some(found) ==> keeps(found, (levels - 1) as nat),
{
    if let Tree::Object(entries) = tree {
        lemma_lookup_member(entries, key);
        if let Some(found) = lookup(entries, key) {
            let j = choose|j: int| 0 <= j < entries.len() && (#[trigger] entries[j]).1 == found;
            assert(keeps(entries[j].1, (levels - 1) as nat));
        }
    }
}

proof fn lemma_lookup_member(entries: Seq<(Seq<char>, Tree)>, key: Seq<char>)
    ensures
        lookup(entries, key) matches Some(found) ==> exists|j: int|
            0 <= j < entries.len() && (#[trigger] entries[j]).1 == found,
    decreases entries.len(),
{
    if entries.len() > 0 && entries.last().0 != key {
        let front = entries.drop_last();
        lemma_lookup_member(front, key);
        if let Some(found) = lookup(front, key) {
            let j = choose|j: int| 0 <= j < front.len() && (#[trigger] front[j]).1 == found;
            assert(entries[j].1 == found);
        }
    } else if entries.len() > 0 {
        assert(entries[entries.len() - 1].1 == entries.last().1);
    }
}

/// One level of a `serde_json::Value`.
enum Node {
    Null,
    Bool(bool),
    Number(String),
    Text(String),
    Array(Vec<serde_json::Value>),
    Object(Vec<(String, serde_json::Value)>),
}

spec fn node_items(items: Seq<serde_json::Value>) -> Seq<Tree> {
    items.map_values(|v: serde_json::Value| value_tree(v))
}

spec fn node_entries(entries: Seq<(String, serde_json::Value)>) -> Seq<(Seq<char>, Tree)> {
    entries.map_values(|e: (String, serde_json::Value)| (e.0@, value_tree(e.1)))
}

/// `serde_json::from_str`: it succeeds exactly where the text has a reading, and
/// gives the value of that reading; else the error's message.
#[verifier::external_body]
fn value_from_str(text: &str) -> (r: Result<serde_json::Value, String>)
    ensures
        (match r {
            Ok(value) => parsed(text@) == Ok::<Tree, Seq<char>>(value_tree(value)),
            Err(message) => parsed(text@) == Err::<Tree, Seq<char>>(message@),
        }),
{
    serde_json::from_str::<serde_json::Value>(text).map_err(|error| error.to_string())
}

/// `serde_json::from_slice`, as `value_from_str` for bytes. Bytes that are UTF-8
/// are read as the text that they encode.
#[verifier::external_body]
fn value_from_slice(bytes: &[u8]) -> (r: Result<serde_json::Value, String>)
    ensures
        (match r {
            Ok(value) => parsed_bytes(bytes@) == Ok::<Tree, Seq<char>>(value_tree(value)),
            Err(message) => parsed_bytes(bytes@) == Err::<Tree, Seq<char>>(message@),
        }),
        valid_utf8(bytes@) ==> (match r {
            Ok(value) => parsed(decode_utf8(bytes@)) == Ok::<Tree, Seq<char>>(value_tree(value)),
            Err(message) => parsed(decode_utf8(bytes@)) == Err::<Tree, Seq<char>>(message@),
        }),
{
    serde_json::from_slice::<serde_json::Value>(bytes).map_err(|error| error.to_string())
}

/// `serde_json::to_string_pretty` on a value: the indented text of its tree. It
/// cannot fail on a `Value`, whose keys are all strings.
#[verifier::external_body]
fn value_to_string_pretty(value: &serde_json::Value) -> (r: String)
    ensures
        r@ == written_pretty(value_tree(*value)),
{
    serde_json::to_string_pretty(value).expect("a JSON value serializes")
}

/// `serde_json::to_string` on a value: the compact text of its tree. It cannot
/// fail on a `Value`, whose keys are all strings. What is written reads back as it
/// was, but for deep nesting and for numbers that are no unsigned 64-bit ones, of
/// which nothing is said. A text comes out with every line feed escaped.
#[verifier::external_body]
fn value_to_string(value: &serde_json::Value) -> (r: String)
    ensures
        r@ == written(value_tree(*value)),
        (keeps(value_tree(*value), MAX_READ_LEVELS as nat) ==> parsed(r@) == Ok::<
            Tree,
            Seq<char>,
        >(value_tree(*value))),
        value_tree(*value) is Text ==> !r@.contains('\n'),
{
    serde_json::to_string(value).expect("a JSON value serializes")
}

/// The variants of a `serde_json::Value`, with their fields. Its objects keep
/// their keys in order, each once.
#[verifier::external_body]
fn take_apart(value: serde_json::Value) -> (node: Node)
    ensures
        (match node {
            Node::Null => value_tree(value) == Tree::Null,
            Node::Bool(b) => value_tree(value) == Tree::Bool(b),
            Node::Number(n) => value_tree(value) == Tree::Number(n@),
            Node::Text(s) => value_tree(value) == Tree::Text(s@),
            Node::Array(items) => value_tree(value) == Tree::Array(node_items(items@)),
            Node::Object(entries) => value_tree(value) == Tree::Object(node_entries(entries@))
                && ordered(node_entries(entries@)),
        }),
{
    match value {
        serde_json::Value::Null => Node::Null,
        serde_json::Value::Bool(b) => Node::Bool(b),
        serde_json::Value::Number(n) => Node::Number(n.to_string()),
        serde_json::Value::String(s) => Node::Text(s),
        serde_json::Value::Array(items) => Node::Array(items),
        serde_json::Value::Object(map) => Node::Object(map.into_iter().collect()),
    }
}

/// The `serde_json::Value` of one level. Collecting into its map puts the entries
/// in one by one. A number's text is read by `serde_json`, so that a 64-bit number
/// in decimal keeps its text; what is no number becomes null.
#[verifier::external_body]
fn assemble(node: Node) -> (value: serde_json::Value)
    ensures
        (match node {
            Node::Null => value_tree(value) == Tree::Null,
            Node::Bool(b) => value_tree(value) == Tree::Bool(b),
            Node::Number(n) => value_tree(value) == number_tree(n@) && forall|k: u64|
                n@ == #[trigger] text::decimal(k as nat) ==> number_tree(n@) == Tree::Number(n@),
            Node::Text(s) => value_tree(value) == Tree::Text(s@),
            Node::Array(items) => value_tree(value) == Tree::Array(node_items(items@)),
            Node::Object(entries) => value_tree(value) == Tree::Object(
                put_all(node_entries(entries@)),
            ),
        }),
{
    match node {
        Node::Null => serde_json::Value::Null,
        Node::Bool(b) => serde_json::Value::Bool(b),
        Node::Number(n) => serde_json::from_str::<serde_json::Number>(&n).map_or(
            serde_json::Value::Null,
            serde_json::Value::Number,
        ),
        Node::Text(s) => serde_json::Value::String(s),
        Node::Array(items) => serde_json::Value::Array(items),
        Node::Object(entries) => serde_json::Value::Object(entries.into_iter().collect()),
    }
}

/// A `serde_json::Value` as the library's own.
fn json_from(value: serde_json::Value) -> (json: Json)
    ensures
        json@ == value_tree(value),
    decreases value_tree(value),
{
    broadcast use lemma_json_view;

    let ghost whole = value_tree(value);
    match take_apart(value) {
        Node::Null => Json::Null,
        Node::Bool(b) => Json::Bool(b),
        Node::Number(n) => Json::Number(n),
        Node::Text(s) => Json::Text(s),
        Node::Array(items) => {
            let ghost all = items@;
            let mut out: Vec<Json> = Vec::new();
            for item in it: items
                invariant
                    it.seq() == all,
                    whole == value_tree(value),
                    whole == Tree::Array(node_items(all)),
                    trees(out@) == node_items(all).take(it.index()),
            {
                let ghost done = out@;
                assert(item == all[it.index()]);
                assert(node_items(all)[it.index()] == value_tree(item));
                assert(decreases_to!(whole => whole->Array_0[it.index()]));
                let json = json_from(item);
                out.push(json);
                assert(trees(out@) =~= trees(done).push(json@));
                assert(node_items(all).take(it.index() + 1) =~= node_items(all).take(
                    it.index(),
                ).push(value_tree(item)));
            }
            assert(node_items(all).take(all.len() as int) =~= node_items(all));
            Json::Array(out)
        },
        Node::Object(entries) => {
            let ghost all = entries@;
            let mut out: Vec<(String, Json)> = Vec::new();
            for entry in it: entries
                invariant
                    it.seq() == all,
                    whole == value_tree(value),
                    whole == Tree::Object(node_entries(all)),
                    entry_trees(out@) == node_entries(all).take(it.index()),
            {
                let ghost done = out@;
                assert(entry == all[it.index()]);
                assert(node_entries(all)[it.index()] == (entry.0@, value_tree(entry.1)));
                let (key, inner) = entry;
                assert(decreases_to!(whole => whole->Object_0[it.index()].1));
                let json = json_from(inner);
                let ghost pair = (key@, json@);
                out.push((key, json));
                assert(entry_trees(out@) =~= entry_trees(done).push(pair));
                assert(node_entries(all).take(it.index() + 1) =~= node_entries(all).take(
                    it.index(),
                ).push(pair));
            }
            assert(node_entries(all).take(all.len() as int) =~= node_entries(all));
            Json::Object(out)
        },
    }
}

/// A tree as `serde_json` holds it: numbers as it reads them, and the entries of
/// each object put in one by one.
pub open spec fn settled(tree: Tree) -> Tree
    decreases tree,
{
    match tree {
        Tree::Number(n) => number_tree(n),
        Tree::Array(items) => Tree::Array(
            Seq::new(
                items.len(),
                |i: int|
                    if 0 <= i < items.len() {
                        settled(items[i])
                    } else {
                        Tree::Null
                    },
            ),
        ),
        Tree::Object(entries) => Tree::Object(put_all(settled_entries(entries))),
        other => other,
    }
}

spec fn settled_items(items: Seq<Tree>) -> Seq<Tree> {
    items.map_values(|t: Tree| settled(t))
}

/// The entries of an object with their values as `serde_json` holds them.
pub open spec fn settled_entries(entries: Seq<(Seq<char>, Tree)>) -> Seq<(Seq<char>, Tree)>
    decreases entries,
{
    Seq::<(Seq<char>, Tree)>::new(
        entries.len(),
        |i: int|
            (
                entries[i].0,
                if 0 <= i < entries.len() {
                    settled(entries[i].1)
                } else {
                    Tree::Null
                },
            ),
    )
}

proof fn lemma_settled(tree: Tree)
    ensures
        tree matches Tree::Array(items) ==> settled(tree) == Tree::Array(settled_items(items)),
{
    if let Tree::Array(items) = tree {
        assert(settled(tree)->Array_0 =~= settled_items(items));
    }
}

/// The `serde_json` value of a value of the library.
fn value_of(json: &Json) -> (value: serde_json::Value)
    ensures
        value_tree(value) == settled(json@),
        forall|levels: nat| #[trigger] keeps(json@, levels) ==> value_tree(value) == json@,
    decreases json@,
{
    broadcast use lemma_json_view;

    let ghost whole = json@;
    proof {
        lemma_settled(whole);
    }
    match json {
        Json::Null => assemble(Node::Null),
        Json::Bool(b) => assemble(Node::Bool(*b)),
        Json::Number(n) => assemble(Node::Number(n.clone())),
        Json::Text(s) => assemble(Node::Text(s.clone())),
        Json::Array(items) => {
            let mut out: Vec<serde_json::Value> = Vec::new();
            let mut i: usize = 0;
            while i < items.len()
                invariant
                    i <= items@.len(),
                    whole == json@,
                    whole == Tree::Array(trees(items@)),
                    node_items(out@) == settled_items(trees(items@)).take(i as int),
                    forall|levels: nat| #[trigger]
                        keeps(whole, levels) ==> node_items(out@) == trees(items@).take(i as int),
                decreases items@.len() - i,
            {
                let ghost done = out@;
                assert(decreases_to!(whole => whole->Array_0[i as int]));
                let value = value_of(&items[i]);
                out.push(value);
                assert forall|levels: nat| #[trigger] keeps(whole, levels) implies node_items(out@)
                    == trees(items@).take(i + 1) by {
                    assert(trees(items@)[i as int] == items@[i as int]@);
                    assert(keeps(items@[i as int]@, (levels - 1) as nat));
                    assert(node_items(out@) =~= trees(items@).take(i + 1));
                }
                assert(node_items(out@) =~= node_items(done).push(value_tree(value)));
                assert(settled_items(trees(items@)).take(i + 1) =~= settled_items(
                    trees(items@),
                ).take(i as int).push(settled(items@[i as int]@)));
                i = i + 1;
            }
            assert(settled_items(trees(items@)).take(items@.len() as int) =~= settled_items(
                trees(items@),
            ));
            assert(trees(items@).take(items@.len() as int) =~= trees(items@));
            assemble(Node::Array(out))
        },
        Json::Object(entries) => {
            let mut out: Vec<(String, serde_json::Value)> = Vec::new();
            let mut i: usize = 0;
            while i < entries.len()
                invariant
                    i <= entries@.len(),
                    whole == json@,
                    whole == Tree::Object(entry_trees(entries@)),
                    node_entries(out@) == settled_entries(entry_trees(entries@)).take(i as int),
                    forall|levels: nat| #[trigger]
                        keeps(whole, levels) ==> node_entries(out@) == entry_trees(entries@).take(
                            i as int,
                        ),
                decreases entries@.len() - i,
            {
                let ghost done = out@;
                assert(decreases_to!(whole => whole->Object_0[i as int].1));
                let entry = &entries[i];
                let value = value_of(&entry.1);
                let key = entry.0.clone();
                let ghost pair = (key@, value_tree(value));
                out.push((key, value));
                assert(node_entries(out@) =~= node_entries(done).push(pair));
                assert(settled_entries(entry_trees(entries@)).take(i + 1) =~= settled_entries(
                    entry_trees(entries@),
                ).take(i as int).push(pair));
                assert forall|levels: nat| #[trigger] keeps(whole, levels) implies node_entries(
                    out@,
                ) == entry_trees(entries@).take(i + 1) by {
                    assert(entry_trees(entries@)[i as int].1 == entries@[i as int].1@);
                    assert(keeps(entries@[i as int].1@, (levels - 1) as nat));
                    assert(node_entries(out@) =~= entry_trees(entries@).take(i + 1));
                }
                i = i + 1;
            }
            assert(settled_entries(entry_trees(entries@)).take(entries@.len() as int)
                =~= settled_entries(entry_trees(entries@)));
            assert(entry_trees(entries@).take(entries@.len() as int) =~= entry_trees(entries@));
            proof {
                if exists|levels: nat| #[trigger] keeps(whole, levels) {
                    lemma_put_all_ordered(entry_trees(entries@));
                }
            }
            assemble(Node::Object(out))
        },
    }
}

/// Reads a JSON text; the error is what `serde_json` says of it.
pub fn parse(text: &str) -> (r: Result<Json, String>)
    ensures
        (match r {
            Ok(json) => parsed(text@) == Ok::<Tree, Seq<char>>(json@),
            Err(message) => parsed(text@) == Err::<Tree, Seq<char>>(message@),
        }),
{
    match value_from_str(text) {
        Ok(value) => Ok(json_from(value)),
        Err(message) => Err(message),
    }
}

/// Reads JSON bytes.
pub fn parse_bytes(bytes: &[u8]) -> (r: Result<Json, String>)
    ensures
        match r {
            Ok(json) => parsed_bytes(bytes@) == Ok::<Tree, Seq<char>>(json@),
            Err(message) => parsed_bytes(bytes@) == Err::<Tree, Seq<char>>(message@),
        },
        valid_utf8(bytes@) ==> parsed_bytes(bytes@) == parsed(decode_utf8(bytes@)),
{
    match value_from_slice(bytes) {
        Ok(value) => Ok(json_from(value)),
        Err(message) => Err(message),
    }
}

/// The indented text of a tree.
pub open spec fn json_pretty(tree: Tree) -> Seq<char> {
    written_pretty(settled(tree))
}

/// A value in text, indented.
pub fn to_text_pretty(json: &Json) -> (r: String)
    ensures
        r@ == json_pretty(json@),
{
    let value = value_of(json);
    value_to_string_pretty(&value)
}

/// The compact text of a JSON value.
pub open spec fn json_text(tree: Tree) -> Seq<char> {
    written(settled(tree))
}

/// Writes a JSON value as compact text, which reads back as the value.
pub fn to_text(json: &Json) -> (r: String)
    ensures
        r@ == json_text(json@),
        keeps(json@, MAX_READ_LEVELS as nat) ==> parsed(r@) == Ok::<Tree, Seq<char>>(json@),
{
    let value = value_of(json);
    value_to_string(&value)
}

/// A text as a JSON string: in quotes, with what must be escaped escaped.
pub open spec fn quoted(s: Seq<char>) -> Seq<char> {
    written(Tree::Text(s))
}

/// Writes a text as a JSON string. It stays on one line and reads back as the text.
pub fn quote(s: &str) -> (r: String)
    ensures
        r@ == quoted(s@),
        parsed(r@) == Ok::<Tree, Seq<char>>(Tree::Text(s@)),
        !r@.contains('\n'),
{
    let value = assemble(Node::Text(s.to_owned()));
    value_to_string(&value)
}

impl Json {
    /// `Value::get` with a key.
    pub fn get(&self, key: &str) -> (r: Option<&Json>)
        ensures
            (match r {
                Some(json) => self@.get(key@) == Some(json@),
                None => self@.get(key@) is None,
            }),
    {
        broadcast use lemma_json_view;

        match self {
            Json::Object(entries) => {
                let mut i: usize = entries.len();
                assert(entry_trees(entries@).take(i as int) =~= entry_trees(entries@));
                while i > 0
                    invariant
                        i <= entries@.len(),
                        lookup(entry_trees(entries@).take(i as int), key@) == lookup(
                            entry_trees(entries@),
                            key@,
                        ),
                        self@ == Tree::Object(entry_trees(entries@)),
                    decreases i,
                {
                    let ghost part = entry_trees(entries@).take(i as int);
                    assert(part.last() == (entries@[i - 1].0@, entries@[i - 1].1@));
                    assert(part.drop_last() =~= entry_trees(entries@).take(i - 1));
                    if text::same(entries[i - 1].0.as_str(), key) {
                        return Some(&entries[i - 1].1);
                    }
                    i = i - 1;
                }
                None
            },
            _ => None,
        }
    }

    /// What stands under a key of what stands under a key.
    pub fn under(&self, a: &str, b: &str) -> (r: Option<&Json>)
        ensures
            (match r {
                Some(json) => under(self@, a@, b@) == Some(json@),
                None => under(self@, a@, b@) is None,
            }),
    {
        match self.get(a) {
            Some(inner) => inner.get(b),
            None => None,
        }
    }

    /// `Value::as_str`.
    pub fn as_str(&self) -> (r: Option<&str>)
        ensures
            (match r {
                Some(s) => self@.text() == Some(s@),
                None => self@.text() is None,
            }),
    {
        match self {
            Json::Text(s) => Some(s.as_str()),
            _ => None,
        }
    }

    /// `Value::as_array`.
    pub fn as_array(&self) -> (r: Option<&Vec<Json>>)
        ensures
            (match r {
                Some(items) => self@.items() == Some(trees(items@)),
                None => self@.items() is None,
            }),
    {
        broadcast use lemma_json_view;

        match self {
            Json::Array(items) => Some(items),
            _ => None,
        }
    }

    /// `Value::as_u64`.
    pub fn as_u64(&self) -> (r: Option<u64>)
        ensures
            r == self@.unsigned(),
    {
        match self {
            Json::Number(n) => parse_u64(n.as_str()),
            _ => None,
        }
    }

    /// `Value::is_null`.
    pub fn is_null(&self) -> (r: bool)
        ensures
            r == (self@ is Null),
    {
        match self {
            Json::Null => true,
            _ => false,
        }
    }

    /// `Value::is_object`.
    pub fn is_object(&self) -> (r: bool)
        ensures
            r == (self@ is Object),
    {
        match self {
            Json::Object(_) => true,
            _ => false,
        }
    }

    /// The text under a key.
    pub fn str_at(&self, key: &str) -> (r: Option<&str>)
        ensures
            (match r {
                Some(s) => self@.text_at(key@) == Some(s@),
                None => self@.text_at(key@) is None,
            }),
    {
        match self.get(key) {
            Some(v) => v.as_str(),
            None => None,
        }
    }

    /// The unsigned number under a key.
    pub fn u64_at(&self, key: &str) -> (r: Option<u64>)
        ensures
            r == self@.unsigned_at(key@),
    {
        match self.get(key) {
            Some(v) => v.as_u64(),
            None => None,
        }
    }

    /// The array under a key.
    pub fn array_at(&self, key: &str) -> (r: Option<&Vec<Json>>)
        ensures
            (match r {
                Some(items) => self@.items_at(key@) == Some(trees(items@)),
                None => self@.items_at(key@) is None,
            }),
    {
        match self.get(key) {
            Some(v) => v.as_array(),
            None => None,
        }
    }

    /// The object without entries.
    pub fn object() -> (r: Json)
        ensures
            r@ == empty_object(),
    {
        broadcast use lemma_json_view;

        let entries: Vec<(String, Json)> = Vec::new();
        assert(entry_trees(entries@) =~= Seq::empty());
        Json::Object(entries)
    }

    /// `Value::as_i64`.
    pub fn as_i64(&self) -> (r: Option<i64>)
        ensures
            r == self@.signed(),
    {
        match self {
            Json::Number(n) => parse_i64(n.as_str()),
            _ => None,
        }
    }

    /// The signed number at a key.
    pub fn i64_at(&self, key: &str) -> (r: Option<i64>)
        ensures
            r == self@.signed_at(key@),
    {
        match self.get(key) {
            Some(json) => json.as_i64(),
            None => None,
        }
    }

    /// A text.
    pub fn string(s: &str) -> (r: Json)
        ensures
            r@ == Tree::Text(s@),
    {
        Json::Text(s.to_owned())
    }

    /// An unsigned number.
    pub fn number(n: u64) -> (r: Json)
        ensures
            r@ == Tree::Number(text::decimal(n as nat)),
            r@.unsigned() == Some(n),
    {
        proof {
            lemma_decimal_value(n as nat);
        }
        Json::Number(text::decimal_of(n))
    }

    /// Sets a key of an object.
    pub fn with(self, key: &str, value: Json) -> (r: Json)
        ensures
            r@ == self@.with(key@, value@),
    {
        broadcast use lemma_json_view;

        match self {
            Json::Object(entries) => {
                let mut entries = entries;
                put_entry(&mut entries, key, value);
                Json::Object(entries)
            },
            other => other,
        }
    }

    /// Takes a key out of an object.
    pub fn without(self, key: &str) -> (r: Json)
        ensures
            r@ == self@.without(key@),
    {
        broadcast use lemma_json_view;

        match self {
            Json::Object(entries) => {
                let ghost all = entries@;
                let mut out: Vec<(String, Json)> = Vec::new();
                for entry in it: entries
                    invariant
                        it.seq() == all,
                        entry_trees(out@) == removed(entry_trees(all).take(it.index()), key@),
                {
                    let ghost done = out@;
                    assert(entry == all[it.index()]);
                    let ghost part = entry_trees(all).take(it.index() + 1);
                    assert(part.drop_last() =~= entry_trees(all).take(it.index()));
                    assert(part.last() == (entry.0@, entry.1@));
                    if !text::same(entry.0.as_str(), key) {
                        let ghost pair = (entry.0@, entry.1@);
                        out.push(entry);
                        assert(entry_trees(out@) =~= entry_trees(done).push(pair));
                    }
                }
                assert(entry_trees(all).take(all.len() as int) =~= entry_trees(all));
                Json::Object(out)
            },
            other => other,
        }
    }

    /// A value with the same tree.
    pub fn copy(&self) -> (r: Json)
        ensures
            r@ == self@,
        decreases self@,
    {
        broadcast use lemma_json_view;

        match self {
            Json::Null => Json::Null,
            Json::Bool(b) => Json::Bool(*b),
            Json::Number(n) => Json::Number(n.clone()),
            Json::Text(s) => Json::Text(s.clone()),
            Json::Array(items) => {
                assert(decreases_to!(self@ => self@->Array_0));
                Json::Array(copy_all(items))
            },
            Json::Object(entries) => {
                let mut out: Vec<(String, Json)> = Vec::new();
                let mut i: usize = 0;
                while i < entries.len()
                    invariant
                        i <= entries@.len(),
                        self@ == Tree::Object(entry_trees(entries@)),
                        entry_trees(out@) == entry_trees(entries@).take(i as int),
                    decreases entries@.len() - i,
                {
                    let ghost done = out@;
                    let entry = &entries[i];
                    assert(decreases_to!(self@ => self@->Object_0[i as int].1));
                    let value = entry.1.copy();
                    let key = entry.0.clone();
                    let ghost pair = (key@, value@);
                    out.push((key, value));
                    assert(entry_trees(out@) =~= entry_trees(done).push(pair));
                    assert(entry_trees(entries@).take(i + 1) =~= entry_trees(entries@).take(
                        i as int,
                    ).push(pair));
                    i = i + 1;
                }
                assert(entry_trees(entries@).take(entries@.len() as int) =~= entry_trees(entries@));
                Json::Object(out)
            },
        }
    }
}

impl Clone for Json {
    fn clone(&self) -> (r: Json)
        ensures
            r@ == self@,
    {
        self.copy()
    }
}

/// Values with the same trees.
pub fn copy_all(items: &Vec<Json>) -> (out: Vec<Json>)
    ensures
        trees(out@) == trees(items@),
    decreases trees(items@),
{
    let mut out: Vec<Json> = Vec::new();
    let mut i: usize = 0;
    while i < items.len()
        invariant
            i <= items@.len(),
            trees(out@) == trees(items@).take(i as int),
        decreases items@.len() - i,
    {
        let ghost done = out@;
        assert(decreases_to!(trees(items@) => trees(items@)[i as int]));
        let json = items[i].copy();
        out.push(json);
        assert(trees(out@) =~= trees(done).push(json@));
        assert(trees(items@).take(i + 1) =~= trees(items@).take(i as int).push(json@));
        i = i + 1;
    }
    assert(trees(items@).take(items@.len() as int) =~= trees(items@));
    out
}

fn put_entry(entries: &mut Vec<(String, Json)>, key: &str, value: Json)
    ensures
        entry_trees(final(entries)@) == put(entry_trees(old(entries)@), key@, value@),
{
    let ghost all = entry_trees(entries@);
    let n: usize = entries.len();
    let mut i: usize = n;
    assert(all.take(n as int) =~= all);
    assert(put(all.take(n as int), key@, value@) + all.skip(n as int) =~= put(all, key@, value@));
    while i > 0
        invariant
            i <= n == entries@.len(),
            all == entry_trees(entries@),
            *entries == *old(entries),
            put(all, key@, value@) == put(all.take(i as int), key@, value@) + all.skip(i as int),
        ensures
            i > 0 ==> all[i - 1].0 != key@ && text_less(all[i - 1].0, key@),
        decreases i,
    {
        let ghost part = all.take(i as int);
        assert(part.last() == (entries@[i - 1].0@, entries@[i - 1].1@));
        if text::same(entries[i - 1].0.as_str(), key) {
            let ghost pair = (key@, value@);
            let ghost before = entries@;
            let name = entries[i - 1].0.clone();
            entries.set(i - 1, (name, value));
            assert(entry_trees(entries@) =~= entry_trees(before).update(i - 1, pair));
            assert(part.drop_last().push(pair) + all.skip(i as int) =~= all.update(i - 1, pair));
            return;
        }
        if less(entries[i - 1].0.as_str(), key) {
            break;
        }
        assert(part.drop_last() =~= all.take(i - 1));
        assert(put(all.take(i - 1), key@, value@).push(all[i - 1]) + all.skip(i as int) =~= put(
            all.take(i - 1),
            key@,
            value@,
        ) + all.skip(i - 1));
        i = i - 1;
    }
    let ghost pair = (key@, value@);
    let ghost before = entries@;
    entries.insert(i, (key.to_owned(), value));
    assert(entry_trees(entries@) =~= entry_trees(before).insert(i as int, pair));
    assert(all.insert(i as int, pair) =~= all.take(i as int).push(pair) + all.skip(i as int));
}

/// Whether two values hold the same tree.
pub fn same_json(a: &Json, b: &Json) -> (r: bool)
    ensures
        r == (a@ == b@),
    decreases a@,
{
    broadcast use lemma_json_view;

    match (a, b) {
        (Json::Null, Json::Null) => true,
        (Json::Bool(x), Json::Bool(y)) => *x == *y,
        (Json::Number(x), Json::Number(y)) => text::same(x.as_str(), y.as_str()),
        (Json::Text(x), Json::Text(y)) => text::same(x.as_str(), y.as_str()),
        (Json::Array(x), Json::Array(y)) => {
            if x.len() != y.len() {
                assert(trees(x@).len() != trees(y@).len());
                return false;
            }
            let mut i: usize = 0;
            while i < x.len()
                invariant
                    i <= x@.len(),
                    x@.len() == y@.len(),
                    a@ == Tree::Array(trees(x@)),
                    b@ == Tree::Array(trees(y@)),
                    forall|k: int| 0 <= k < i ==> trees(x@)[k] == trees(y@)[k],
                decreases x@.len() - i,
            {
                assert(decreases_to!(a@ => a@->Array_0[i as int]));
                if !same_json(&x[i], &y[i]) {
                    assert(trees(x@)[i as int] != trees(y@)[i as int]);
                    return false;
                }
                i = i + 1;
            }
            assert(trees(x@) =~= trees(y@));
            true
        },
        (Json::Object(x), Json::Object(y)) => {
            if x.len() != y.len() {
                assert(entry_trees(x@).len() != entry_trees(y@).len());
                return false;
            }
            let mut i: usize = 0;
            while i < x.len()
                invariant
                    i <= x@.len(),
                    x@.len() == y@.len(),
                    a@ == Tree::Object(entry_trees(x@)),
                    b@ == Tree::Object(entry_trees(y@)),
                    forall|k: int| 0 <= k < i ==> entry_trees(x@)[k] == entry_trees(y@)[k],
                decreases x@.len() - i,
            {
                assert(decreases_to!(a@ => a@->Object_0[i as int].1));
                if !text::same(x[i].0.as_str(), y[i].0.as_str()) || !same_json(
                    &x[i].1,
                    &y[i].1,
                ) {
                    assert(entry_trees(x@)[i as int] != entry_trees(y@)[i as int]);
                    return false;
                }
                i = i + 1;
            }
            assert(entry_trees(x@) =~= entry_trees(y@));
            true
        },
        _ => false,
    }
}

} // verus!
