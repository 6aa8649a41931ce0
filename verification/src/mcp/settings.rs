//! Named values, each name once and in the order of the names.
use vstd::prelude::*;
use vstd::string::*;

use crate::json;
use crate::text;

verus! {

/// A named value, such as a header or an environment variable.
#[derive(Clone, Debug, PartialEq, Eq)]
pub struct Setting {
    pub key: String,
    pub value: String,
}

pub open spec fn settings(list: Seq<Setting>) -> Seq<(Seq<char>, Seq<char>)> {
    list.map_values(|s: Setting| (s.key@, s.value@))
}

/// Whether the keys stand in strict order, so that none occurs twice.
pub open spec fn keys_in_order(list: Seq<(Seq<char>, Seq<char>)>) -> bool {
    forall|i: int, j: int|
        0 <= i < j < list.len() ==> json::text_less(#[trigger] list[i].0, #[trigger] list[j].0)
}

/// Where a key stands or belongs, from `from` on: before the first key that is
/// not smaller.
pub open spec fn place(list: Seq<(Seq<char>, Seq<char>)>, key: Seq<char>, from: int) -> int
    decreases list.len() - from,
{
    if from < 0 || from >= list.len() || !json::text_less(list[from].0, key) {
        from
    } else {
        place(list, key, from + 1)
    }
}

/// The settings with one set: its value replaced where the key stands, else put
/// in at its place.
pub open spec fn with_setting(
    list: Seq<(Seq<char>, Seq<char>)>,
    key: Seq<char>,
    value: Seq<char>,
) -> Seq<(Seq<char>, Seq<char>)> {
    let at = place(list, key, 0);
    if at < list.len() && list[at].0 == key {
        list.update(at, (key, value))
    } else {
        list.insert(at, (key, value))
    }
}

/// The value under a key.
pub open spec fn value_of(list: Seq<(Seq<char>, Seq<char>)>, key: Seq<char>) -> Option<Seq<char>> {
    let at = place(list, key, 0);
    if at < list.len() && list[at].0 == key {
        Some(list[at].1)
    } else {
        None
    }
}

proof fn lemma_place(list: Seq<(Seq<char>, Seq<char>)>, key: Seq<char>, from: int)
    requires
        0 <= from <= list.len(),
    ensures
        from <= place(list, key, from) <= list.len(),
        forall|i: int|
            from <= i < place(list, key, from) ==> json::text_less(#[trigger] list[i].0, key),
        place(list, key, from) < list.len() ==> !json::text_less(
            list[place(list, key, from)].0,
            key,
        ),
    decreases list.len() - from,
{
    if from < list.len() && json::text_less(list[from].0, key) {
        lemma_place(list, key, from + 1);
    }
}

proof fn lemma_place_is_first(list: Seq<(Seq<char>, Seq<char>)>, key: Seq<char>, from: int, at: int)
    requires
        0 <= from <= at < list.len(),
        forall|i: int| from <= i < at ==> json::text_less(#[trigger] list[i].0, key),
        list[at].0 == key,
    ensures
        place(list, key, from) == at,
    decreases at - from,
{
    json::lemma_text_less_irreflexive(key);
    if from < at {
        lemma_place_is_first(list, key, from + 1, at);
    }
}

/// Setting a value keeps the keys in order, and the value is found under its key
/// thereafter.
pub proof fn law_set_value_is_found(
    list: Seq<(Seq<char>, Seq<char>)>,
    key: Seq<char>,
    value: Seq<char>,
)
    requires
        keys_in_order(list),
    ensures
        keys_in_order(with_setting(list, key, value)),
        value_of(with_setting(list, key, value), key) == Some(value),
{
    let at = place(list, key, 0);
    let after = with_setting(list, key, value);
    lemma_place(list, key, 0);
    if at < list.len() && list[at].0 == key {
        assert forall|i: int, j: int| 0 <= i < j < after.len() implies json::text_less(
            #[trigger] after[i].0,
            #[trigger] after[j].0,
        ) by {
            assert(after[i].0 == list[i].0 && after[j].0 == list[j].0);
        }
        assert forall|i: int| 0 <= i < at implies json::text_less(#[trigger] after[i].0, key) by {
            assert(after[i].0 == list[i].0);
        }
    } else {
        assert forall|j: int| at <= j < list.len() implies json::text_less(
            key,
            #[trigger] list[j].0,
        ) by {
            json::lemma_text_less_total(list[at].0, key);
            if j > at {
                assert(json::text_less(list[at].0, list[j].0));
                json::lemma_text_less_transitive(key, list[at].0, list[j].0);
            }
        }
        assert forall|i: int, j: int| 0 <= i < j < after.len() implies json::text_less(
            #[trigger] after[i].0,
            #[trigger] after[j].0,
        ) by {
            let a = if i < at {
                i
            } else {
                i - 1
            };
            let b = if j < at {
                j
            } else {
                j - 1
            };
            if i != at {
                assert(after[i] == list[a]);
            }
            if j != at {
                assert(after[j] == list[b]);
            }
        }
        assert forall|i: int| 0 <= i < at implies json::text_less(#[trigger] after[i].0, key) by {
            assert(after[i] == list[i]);
        }
    }
    lemma_place_is_first(after, key, 0, at);
}

/// The settings of a server.
#[derive(Debug, PartialEq, Eq)]
pub struct Settings {
    list: Vec<Setting>,
}

impl View for Settings {
    type V = Seq<(Seq<char>, Seq<char>)>;

    closed spec fn view(&self) -> Seq<(Seq<char>, Seq<char>)> {
        settings(self.list@)
    }
}

impl Settings {
    #[verifier::type_invariant]
    spec fn is_in_order(self) -> bool {
        keys_in_order(settings(self.list@))
    }

    pub fn new() -> (r: Settings)
        ensures
            r@ == Seq::<(Seq<char>, Seq<char>)>::empty(),
    {
        let r = Settings { list: Vec::new() };
        assert(r@ =~= Seq::empty());
        r
    }

    /// The settings one after another.
    pub fn entries(&self) -> (r: &Vec<Setting>)
        ensures
            settings(r@) == self@,
            keys_in_order(self@),
    {
        proof {
            use_type_invariant(self);
        }
        &self.list
    }

    /// Sets a value.
    pub fn insert(&mut self, key: String, value: String)
        ensures
            final(self)@ == with_setting(old(self)@, key@, value@),
    {
        proof {
            use_type_invariant(&*self);
            law_set_value_is_found(self@, key@, value@);
        }
        let ghost all = settings(self.list@);
        let mut list: Vec<Setting> = Vec::new();
        std::mem::swap(&mut list, &mut self.list);
        let mut at: usize = 0;
        while at < list.len() && json::less(list[at].key.as_str(), key.as_str())
            invariant
                at <= list@.len(),
                all == settings(list@),
                place(all, key@, 0) == place(all, key@, at as int),
            decreases list@.len() - at,
        {
            at = at + 1;
        }
        let known = at < list.len() && text::same(list[at].key.as_str(), key.as_str());
        let setting = Setting { key, value };
        if known {
            list.set(at, setting);
            assert(settings(list@) =~= all.update(at as int, (key@, value@)));
        } else {
            list.insert(at, setting);
            assert(settings(list@) =~= all.insert(at as int, (key@, value@)));
        }
        self.list = list;
    }

    pub fn same(&self, other: &Settings) -> (r: bool)
        ensures
            r == (self@ == other@),
    {
        let a = &self.list;
        let b = &other.list;
        if a.len() != b.len() {
            assert(settings(a@).len() != settings(b@).len());
            return false;
        }
        let mut i: usize = 0;
        while i < a.len()
            invariant
                i <= a@.len(),
                a@.len() == b@.len(),
                a@ == self.list@,
                b@ == other.list@,
                forall|k: int| 0 <= k < i ==> settings(a@)[k] == settings(b@)[k],
            decreases a@.len() - i,
        {
            if !text::same(a[i].key.as_str(), b[i].key.as_str()) || !text::same(
                a[i].value.as_str(),
                b[i].value.as_str(),
            ) {
                assert(settings(a@)[i as int] != settings(b@)[i as int]);
                return false;
            }
            i = i + 1;
        }
        assert(settings(a@) =~= settings(b@));
        true
    }
}

impl Default for Settings {
    fn default() -> (r: Settings)
        ensures
            r@ == Seq::<(Seq<char>, Seq<char>)>::empty(),
    {
        Settings::new()
    }
}

impl Clone for Settings {
    fn clone(&self) -> (r: Settings)
        ensures
            r@ == self@,
    {
        proof {
            use_type_invariant(self);
        }
        let mut list: Vec<Setting> = Vec::new();
        let mut i: usize = 0;
        while i < self.list.len()
            invariant
                i <= self.list@.len(),
                list@ == self.list@.take(i as int),
            decreases self.list@.len() - i,
        {
            list.push(
                Setting { key: self.list[i].key.clone(), value: self.list[i].value.clone() },
            );
            assert(self.list@.take(i + 1) =~= self.list@.take(i as int).push(self.list@[i as int]));
            i = i + 1;
        }
        assert(list@ =~= self.list@);
        Settings { list }
    }
}

} // verus!
