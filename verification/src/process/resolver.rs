//! Where executables were found: a bounded memory of earlier searches, and the
//! names that a search tries.
use vstd::prelude::*;
use vstd::string::*;

use crate::text;

verus! {

/// Most searches that are remembered.
pub const EXECUTABLE_CACHE_CAPACITY: usize = 128;

/// What a search depends on. Paths are kept as their raw bytes.
#[derive(Debug)]
pub struct ResolverKey {
    pub generation: u64,
    pub program: Vec<u8>,
    pub path: Vec<u8>,
    pub path_ext: Vec<u8>,
}

#[verifier::ext_equal]
pub ghost struct KeyView {
    pub generation: u64,
    pub program: Seq<u8>,
    pub path: Seq<u8>,
    pub path_ext: Seq<u8>,
}

impl View for ResolverKey {
    type V = KeyView;

    open spec fn view(&self) -> KeyView {
        KeyView {
            generation: self.generation,
            program: self.program@,
            path: self.path@,
            path_ext: self.path_ext@,
        }
    }
}

/// Whether two byte strings agree.
fn same_bytes(a: &Vec<u8>, b: &Vec<u8>) -> (r: bool)
    ensures
        r == (a@ == b@),
{
    if a.len() != b.len() {
        return false;
    }
    let mut i: usize = 0;
    while i < a.len()
        invariant
            i <= a@.len(),
            a@.len() == b@.len(),
            forall|k: int| 0 <= k < i ==> a@[k] == b@[k],
        decreases a@.len() - i,
    {
        if a[i] != b[i] {
            return false;
        }
        i = i + 1;
    }
    assert(a@ =~= b@);
    true
}

fn copy_bytes(bytes: &Vec<u8>) -> (r: Vec<u8>)
    ensures
        r@ == bytes@,
{
    let mut out: Vec<u8> = Vec::new();
    let mut i: usize = 0;
    while i < bytes.len()
        invariant
            i <= bytes@.len(),
            out@ == bytes@.take(i as int),
        decreases bytes@.len() - i,
    {
        out.push(bytes[i]);
        assert(bytes@.take(i + 1) =~= bytes@.take(i as int).push(bytes@[i as int]));
        i = i + 1;
    }
    assert(bytes@.take(bytes@.len() as int) =~= bytes@);
    out
}

impl ResolverKey {
    fn same(&self, other: &ResolverKey) -> (r: bool)
        ensures
            r == (self@ == other@),
    {
        let equal = self.generation == other.generation && same_bytes(
            &self.program,
            &other.program,
        ) && same_bytes(&self.path, &other.path) && same_bytes(&self.path_ext, &other.path_ext);
        proof {
            if self@ == other@ {
                assert(self@.program == other@.program);
            }
        }
        equal
    }
}

/// What an earlier search gave: nothing where no program was found.
pub open spec fn found(place: Option<Vec<u8>>) -> Option<Seq<u8>> {
    match place {
        Some(place) => Some(place@),
        None => None,
    }
}

/// One remembered search.
#[derive(Debug)]
pub struct Remembered {
    pub key: ResolverKey,
    pub place: Option<Vec<u8>>,
}

pub open spec fn remembered(entries: Seq<Remembered>) -> Seq<(KeyView, Option<Seq<u8>>)> {
    entries.map_values(|e: Remembered| (e.key@, found(e.place)))
}

/// Where the search for a key is remembered.
pub open spec fn position(entries: Seq<(KeyView, Option<Seq<u8>>)>, key: KeyView) -> Option<int>
    decreases entries.len(),
{
    if entries.len() == 0 {
        None
    } else if entries.last().0 == key {
        Some(entries.len() - 1)
    } else {
        position(entries.drop_last(), key)
    }
}

/// The memory without what it holds of a key.
pub open spec fn forgotten(
    entries: Seq<(KeyView, Option<Seq<u8>>)>,
    key: KeyView,
) -> Seq<(KeyView, Option<Seq<u8>>)> {
    match position(entries, key) {
        Some(i) => entries.remove(i),
        None => entries,
    }
}

/// The memory after a search: the newest last, the oldest dropped when full.
pub open spec fn kept_with(
    entries: Seq<(KeyView, Option<Seq<u8>>)>,
    key: KeyView,
    place: Option<Seq<u8>>,
) -> Seq<(KeyView, Option<Seq<u8>>)> {
    let all = forgotten(entries, key).push((key, place));
    if all.len() > EXECUTABLE_CACHE_CAPACITY {
        all.drop_first()
    } else {
        all
    }
}

/// Whether no key is remembered twice.
pub open spec fn distinct(entries: Seq<(KeyView, Option<Seq<u8>>)>) -> bool {
    forall|i: int, j: int|
        0 <= i < j < entries.len() ==> (#[trigger] entries[i]).0 != (#[trigger] entries[j]).0
}

proof fn lemma_position(entries: Seq<(KeyView, Option<Seq<u8>>)>, key: KeyView)
    ensures
        match position(entries, key) {
            Some(i) => 0 <= i < entries.len() && entries[i].0 == key,
            None => forall|i: int| 0 <= i < entries.len() ==> (#[trigger] entries[i]).0 != key,
        },
    decreases entries.len(),
{
    if entries.len() > 0 && entries.last().0 != key {
        lemma_position(entries.drop_last(), key);
        match position(entries.drop_last(), key) {
            Some(i) => {},
            None => {
                assert forall|i: int| 0 <= i < entries.len() implies (#[trigger] entries[i]).0
                    != key by {
                    if i < entries.len() - 1 {
                        assert(entries.drop_last()[i].0 != key);
                    }
                }
            },
        }
    }
}

/// In a memory without repeats, a held key has one place.
proof fn lemma_only_position(entries: Seq<(KeyView, Option<Seq<u8>>)>, key: KeyView, i: int)
    requires
        distinct(entries),
        0 <= i < entries.len(),
        entries[i].0 == key,
    ensures
        position(entries, key) == Some(i),
{
    lemma_position(entries, key);
    let j = position(entries, key)->0;
    if i < j {
        assert(entries[i].0 != entries[j].0);
    } else if j < i {
        assert(entries[j].0 != entries[i].0);
    }
}

/// What a memory answers for a key.
pub open spec fn recalled(
    entries: Seq<(KeyView, Option<Seq<u8>>)>,
    key: KeyView,
) -> Option<Option<Seq<u8>>> {
    match position(entries, key) {
        Some(i) => Some(entries[i].1),
        None => None,
    }
}

/// The memory of earlier searches, from the least to the most recently used.
/// No key stands in it twice, and it never holds more than its capacity.
pub struct ExecutableResolver {
    generation: u64,
    entries: Vec<Remembered>,
}

/// What the memory says of a key.
#[derive(Debug)]
pub enum Lookup {
    /// Nothing is remembered: search.
    Unknown,
    /// The search found no program.
    Absent,
    /// The search found this, which must still be executable.
    Candidate { place: Vec<u8> },
}

impl ExecutableResolver {
    pub closed spec fn generation(&self) -> u64 {
        self.generation
    }

    pub closed spec fn entries(&self) -> Seq<(KeyView, Option<Seq<u8>>)> {
        remembered(self.entries@)
    }

    #[verifier::type_invariant]
    spec fn inv(self) -> bool {
        &&& distinct(remembered(self.entries@))
        &&& self.entries@.len() <= EXECUTABLE_CACHE_CAPACITY
    }

    /// A memory of no searches.
    pub fn new() -> (r: ExecutableResolver)
        ensures
            r.generation() == 0,
            r.entries() == Seq::<(KeyView, Option<Seq<u8>>)>::empty(),
    {
        let entries: Vec<Remembered> = Vec::new();
        assert(remembered(entries@) =~= Seq::empty());
        ExecutableResolver { generation: 0, entries }
    }

    /// The key of a search that is made now.
    pub fn key(&self, program: Vec<u8>, path: Vec<u8>, path_ext: Vec<u8>) -> (r: ResolverKey)
        ensures
            r@ == (KeyView {
                generation: self.generation(),
                program: program@,
                path: path@,
                path_ext: path_ext@,
            }),
    {
        ResolverKey { generation: self.generation, program, path, path_ext }
    }

    fn place_of(entries: &Vec<Remembered>, key: &ResolverKey) -> (r: Option<usize>)
        requires
            distinct(remembered(entries@)),
        ensures
            match r {
                Some(i) => i < entries@.len() && position(remembered(entries@), key@) == Some(
                    i as int,
                ),
                None => position(remembered(entries@), key@) is None,
            },
    {
        let ghost all = remembered(entries@);
        let mut i: usize = 0;
        while i < entries.len()
            invariant
                i <= entries@.len(),
                all == remembered(entries@),
                distinct(all),
                forall|k: int| 0 <= k < i ==> (#[trigger] all[k]).0 != key@,
            decreases entries@.len() - i,
        {
            if entries[i].key.same(key) {
                proof {
                    assert(all[i as int].0 == key@);
                    lemma_only_position(all, key@, i as int);
                }
                return Some(i);
            }
            assert(all[i as int].0 != key@);
            i = i + 1;
        }
        proof {
            lemma_position(all, key@);
        }
        None
    }

    /// What is remembered of a search.
    pub fn lookup(&self, key: &ResolverKey) -> (r: Lookup)
        ensures
            match recalled(self.entries(), key@) {
                None => r is Unknown,
                Some(None) => r is Absent,
                Some(Some(place)) => r matches Lookup::Candidate { place: p } && p@ == place,
            },
    {
        proof {
            use_type_invariant(self);
        }
        match Self::place_of(&self.entries, key) {
            None => Lookup::Unknown,
            Some(i) => match &self.entries[i].place {
                None => Lookup::Absent,
                Some(place) => Lookup::Candidate { place: copy_bytes(place) },
            },
        }
    }

    /// Forgets a search.
    fn without(entries: Vec<Remembered>, key: &ResolverKey) -> (r: Vec<Remembered>)
        requires
            distinct(remembered(entries@)),
            entries@.len() <= EXECUTABLE_CACHE_CAPACITY,
        ensures
            remembered(r@) == forgotten(remembered(entries@), key@),
            distinct(remembered(r@)),
            r@.len() <= EXECUTABLE_CACHE_CAPACITY,
            forall|i: int|
                0 <= i < r@.len() ==> (#[trigger] remembered(r@)[i]).0 != key@,
    {
        let ghost all = remembered(entries@);
        let mut entries = entries;
        match Self::place_of(&entries, key) {
            Some(i) => {
                entries.remove(i);
                proof {
                    lemma_removed(all, key@, i as int);
                    assert(remembered(entries@) =~= all.remove(i as int));
                }
            },
            None => {
                proof {
                    lemma_position(all, key@);
                }
            },
        }
        entries
    }

    /// Settles a remembered search, told whether its candidate can still be
    /// executed. One that was found absent stays; one that can no longer be
    /// executed is forgotten. What stays becomes the most recent.
    pub fn settle(self, key: ResolverKey, executable: bool) -> (r: (ExecutableResolver, bool))
        ensures
            r.0.generation() == self.generation(),
            r.1 == match recalled(self.entries(), key@) {
                None => false,
                Some(None) => true,
                Some(Some(_)) => executable,
            },
            r.0.entries() == match recalled(self.entries(), key@) {
                Some(place) if r.1 => kept_with(self.entries(), key@, place),
                _ => forgotten(self.entries(), key@),
            },
    {
        proof {
            use_type_invariant(&self);
        }
        let ghost all = remembered(self.entries@);
        let generation = self.generation;
        let mut entries = self.entries;
        match Self::place_of(&entries, &key) {
            None => (ExecutableResolver { generation, entries }, false),
            Some(i) => {
                let stays = match &entries[i].place {
                    None => true,
                    Some(_) => executable,
                };
                let entry = entries.remove(i);
                proof {
                    lemma_removed(all, key@, i as int);
                    assert(remembered(entries@) =~= all.remove(i as int));
                }
                if stays {
                    let ghost before = entries@;
                    entries.push(Remembered { key, place: entry.place });
                    assert(remembered(entries@) =~= remembered(before).push(
                        (key@, all[i as int].1),
                    ));
                }
                (ExecutableResolver { generation, entries }, stays)
            },
        }
    }

    /// Remembers a search.
    pub fn insert(self, key: ResolverKey, place: Option<Vec<u8>>) -> (r: ExecutableResolver)
        ensures
            r.generation() == self.generation(),
            r.entries() == kept_with(self.entries(), key@, found(place)),
    {
        proof {
            use_type_invariant(&self);
        }
        let generation = self.generation;
        let ghost all = remembered(self.entries@);
        let mut entries = Self::without(self.entries, &key);
        let ghost before = entries@;
        entries.push(Remembered { key, place });
        assert(remembered(entries@) =~= remembered(before).push((key@, found(place))));
        let ghost full = remembered(entries@);
        if entries.len() > EXECUTABLE_CACHE_CAPACITY {
            entries.remove(0);
            assert(remembered(entries@) =~= full.drop_first());
        }
        ExecutableResolver { generation, entries }
    }

    /// Forgets every search. Keys made before are of another generation.
    pub fn bump_generation(self) -> (r: ExecutableResolver)
        ensures
            r.generation() == (if self.generation() == u64::MAX {
                0
            } else {
                self.generation() + 1
            }),
            r.entries() == Seq::<(KeyView, Option<Seq<u8>>)>::empty(),
    {
        let generation: u64 = self.generation.wrapping_add(1);
        let entries: Vec<Remembered> = Vec::new();
        assert(remembered(entries@) =~= Seq::empty());
        ExecutableResolver { generation, entries }
    }
}

proof fn lemma_removed(entries: Seq<(KeyView, Option<Seq<u8>>)>, key: KeyView, i: int)
    requires
        distinct(entries),
        position(entries, key) == Some(i),
    ensures
        distinct(entries.remove(i)),
        forall|a: int|
            0 <= a < entries.remove(i).len() ==> (#[trigger] entries.remove(i)[a]).0 != key,
{
    lemma_position(entries, key);
    let rest = entries.remove(i);
    assert forall|a: int| 0 <= a < rest.len() implies (#[trigger] rest[a]).0 != key by {
        let b = if a < i { a } else { a + 1 };
        assert(rest[a] == entries[b]);
        if b < i {
            assert(entries[b].0 != entries[i].0);
        } else {
            assert(entries[i].0 != entries[b].0);
        }
    }
    assert forall|a: int, b: int| 0 <= a < b < rest.len() implies (#[trigger] rest[a]).0 != (
    #[trigger] rest[b]).0 by {
        let c = if a < i { a } else { a + 1 };
        let d = if b < i { b } else { b + 1 };
        assert(entries[c].0 != entries[d].0);
    }
}

/// A search that was just remembered is recalled, and a memory within its
/// capacity stays within it.
pub proof fn law_insert_is_recalled(
    entries: Seq<(KeyView, Option<Seq<u8>>)>,
    key: KeyView,
    place: Option<Seq<u8>>,
)
    requires
        entries.len() <= EXECUTABLE_CACHE_CAPACITY,
    ensures
        recalled(kept_with(entries, key, place), key) == Some(place),
        kept_with(entries, key, place).len() <= EXECUTABLE_CACHE_CAPACITY,
{
    lemma_position(entries, key);
}

/// Whether a program is named by where it is, so that no directory is searched
/// for it: its path is absolute or has several components.
pub fn names_a_place(absolute: bool, components: usize) -> (r: bool)
    ensures
        r == (absolute || components > 1),
{
    absolute || components > 1
}

/// Whether one place of a search comes before another: directories come first,
/// and in a directory the names.
pub open spec fn sooner(a: (usize, usize), b: (usize, usize)) -> bool {
    a.0 < b.0 || (a.0 == b.0 && a.1 < b.1)
}

/// Whether a search still has a place before it, of so many directories and names
/// to try in each.
pub open spec fn still_to_try(
    last: Option<(usize, usize)>,
    directories: usize,
    names: usize,
    place: (usize, usize),
) -> bool {
    &&& place.0 < directories
    &&& place.1 < names
    &&& last matches Some(tried) ==> sooner(tried, place)
}

/// The place to try after the last one that was tried: the first that is left.
pub fn next_place(last: Option<(usize, usize)>, directories: usize, names: usize) -> (r: Option<
    (usize, usize),
>)
    ensures
        match r {
            Some(place) => still_to_try(last, directories, names, place) && forall|other: (
                usize,
                usize,
            )|
                #[trigger]
                still_to_try(last, directories, names, other) ==> other == place || sooner(
                    place,
                    other,
                ),
            None => forall|other: (usize, usize)|
                !#[trigger] still_to_try(last, directories, names, other),
        },
{
    if directories == 0 || names == 0 {
        return None;
    }
    match last {
        None => Some((0, 0)),
        Some((directory, name)) => if directory >= directories {
            None
        } else if name < names - 1 {
            Some((directory, name + 1))
        } else if directory + 1 < directories {
            Some((directory + 1, 0))
        } else {
            None
        },
    }
}

/// The names under which a program is tried. Where extensions count, a program
/// without one is tried as it stands and then with each listed extension.
pub open spec fn tried_names(
    program: Seq<char>,
    by_extension: bool,
    extensions: Seq<Seq<char>>,
) -> Seq<Seq<char>> {
    if !by_extension {
        seq![program]
    } else {
        seq![program] + extensions.filter(|e: Seq<char>| e.len() > 0).map_values(
            |e: Seq<char>| program + e,
        )
    }
}

/// The names to try: `by_extension` tells whether the system goes by extensions
/// and the program has none; the extensions are separated by semicolons.
pub fn executable_names(program: &str, by_extension: bool, path_ext: &str) -> (r: Vec<String>)
    ensures
        text::texts(r@) == tried_names(program@, by_extension, text::split(path_ext@, ';')),
{
    let mut names: Vec<String> = Vec::new();
    names.push(program.to_owned());
    assert(text::texts(names@) =~= seq![program@]);
    if !by_extension {
        return names;
    }
    let extensions = text::parts_of(path_ext, ';');
    let ghost all = text::texts(extensions@);
    let ghost visible = |e: Seq<char>| e.len() > 0;
    let ghost joined = |e: Seq<char>| program@ + e;
    let mut i: usize = 0;
    proof {
        reveal(Seq::filter);
        assert(all.take(0).filter(visible).map_values(joined) =~= Seq::empty());
        assert(text::texts(names@) =~= seq![program@] + all.take(0).filter(visible).map_values(
            joined,
        ));
    }
    while i < extensions.len()
        invariant
            i <= extensions@.len(),
            all == text::texts(extensions@),
            visible == (|e: Seq<char>| e.len() > 0),
            joined == (|e: Seq<char>| program@ + e),
            text::texts(names@) == seq![program@] + all.take(i as int).filter(visible).map_values(
                joined,
            ),
        decreases extensions@.len() - i,
    {
        let extension = extensions[i].as_str();
        proof {
            reveal(Seq::filter);
            assert(all.take(i + 1).drop_last() =~= all.take(i as int));
            assert(all.take(i + 1).last() == extension@);
        }
        if !extension.is_empty() {
            let mut name = program.to_owned();
            name.append(extension);
            let ghost before = names@;
            names.push(name);
            assert(text::texts(names@) =~= text::texts(before).push(program@ + extension@));
            assert(all.take(i + 1).filter(visible) =~= all.take(i as int).filter(visible).push(
                extension@,
            ));
            assert(text::texts(names@) =~= seq![program@] + all.take(i + 1).filter(
                visible,
            ).map_values(joined));
        } else {
            assert(all.take(i + 1).filter(visible) =~= all.take(i as int).filter(visible));
        }
        i = i + 1;
    }
    assert(all.take(all.len() as int) =~= all);
    names
}

} // verus!
