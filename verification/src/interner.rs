//! Interning: the table of heap strings by hash, and the interner of identifier names.
use hashbrown::{HashMap, HashTable};
use std::collections::hash_map::DefaultHasher;
use std::hash::{BuildHasher, BuildHasherDefault};
use vstd::prelude::*;

use crate::gc::GcRef;
use crate::vm::str_eq;

verus! {

/// `std::hash::BuildHasherDefault`, a stateless builder of default hashers.
#[verifier::external_type_specification]
#[verifier::external_body]
#[verifier::reject_recursive_types(H)]
pub struct ExBuildHasherDefault<H>(BuildHasherDefault<H>);

/// The hash that a default-built `DefaultHasher` gives a string.
pub uninterp spec fn str_hash(s: Seq<char>) -> u64;

/// Calls `BuildHasher::hash_one` on a `BuildHasherDefault<DefaultHasher>`, which hashes `s`
/// with a freshly made `DefaultHasher`; that hasher starts from fixed keys.
#[verifier::external_body]
fn hash_one_str(hasher: &BuildHasherDefault<DefaultHasher>, s: &str) -> (r: u64)
    ensures
        r == str_hash(s@),
{
    hasher.hash_one(s)
}

/// Calls `BuildHasherDefault::default`, which makes the stateless builder of default hashers.
#[verifier::external_body]
pub(crate) fn default_hasher() -> (r: BuildHasherDefault<DefaultHasher>) {
    BuildHasherDefault::default()
}

// ---------------------------------------------------------------------------
// String objects by hash, kept in a hashbrown map
// ---------------------------------------------------------------------------

/// Heap strings by hash, in a `hashbrown::HashMap`.
#[verifier::external_body]
pub struct HashIndex {
    map: HashMap<u64, GcRef>,
}

/// The entries of a hash index.
pub uninterp spec fn hash_index_entries(t: HashIndex) -> Map<u64, GcRef>;

impl HashIndex {
    /// Calls `hashbrown::HashMap::new`, which makes an empty map.
    #[verifier::external_body]
    fn new() -> (t: HashIndex)
        ensures
            hash_index_entries(t) =~= Map::empty(),
    {
        HashIndex { map: HashMap::new() }
    }

    /// Calls `hashbrown::HashMap::get`, the reference stored under `hash`.
    #[verifier::external_body]
    fn get(&self, hash: u64) -> (r: Option<GcRef>)
        ensures
            r == (if hash_index_entries(*self).contains_key(hash) {
                Some(hash_index_entries(*self)[hash])
            } else {
                None
            }),
    {
        self.map.get(&hash).copied()
    }

    /// Calls `hashbrown::HashMap::insert`, which stores `r` under `hash`, replacing any
    /// earlier entry.
    #[verifier::external_body]
    fn insert(&mut self, hash: u64, r: GcRef)
        ensures
            hash_index_entries(*final(self)) == hash_index_entries(*old(self)).insert(hash, r),
    {
        self.map.insert(hash, r);
    }

    /// Calls `hashbrown::HashMap::remove`, which drops the entry under `hash`.
    #[verifier::external_body]
    fn remove(&mut self, hash: u64)
        ensures
            hash_index_entries(*final(self)) == hash_index_entries(*old(self)).remove(hash),
    {
        self.map.remove(&hash);
    }

    /// Calls `hashbrown::HashMap::iter`, each entry once, in an order the map chooses.
    #[verifier::external_body]
    fn entries(&self) -> (r: Vec<(u64, GcRef)>)
        ensures
            forall|h: u64, g: GcRef| #[trigger]
                r@.contains((h, g)) <==> (hash_index_entries(*self).contains_key(h)
                    && hash_index_entries(*self)[h] == g),
    {
        self.map.iter().map(|(h, g)| (*h, *g)).collect()
    }
}

/// The string table: heap string objects by the hash of their text; entries are weak, the
/// collector removes those of freed strings.
pub struct StringTable {
    table: HashIndex,
    hasher: BuildHasherDefault<DefaultHasher>,
}

/// The string table with the default hasher.
pub type DefaultStringTable = StringTable;

impl StringTable {
    /// The entries, by hash.
    pub closed spec fn entries(&self) -> Map<u64, GcRef> {
        hash_index_entries(self.table)
    }

    /// An empty table using `hasher`.
    pub fn new(hasher: BuildHasherDefault<DefaultHasher>) -> (r: Self)
        ensures
            r.entries() == Map::<u64, GcRef>::empty(),
            r.hasher_view() == hasher,
    {
        StringTable { table: HashIndex::new(), hasher }
    }

    /// The hash of `s`.
    pub fn hash_string(&self, s: &str) -> (r: u64)
        ensures
            r == str_hash(s@),
    {
        hash_one_str(&self.hasher, s)
    }

    /// The string object recorded under `hash`.
    pub fn get(&self, hash: u64) -> (r: Option<GcRef>)
        ensures
            r == (if self.entries().contains_key(hash) {
                Some(self.entries()[hash])
            } else {
                None
            }),
    {
        self.table.get(hash)
    }

    /// Records `gc_ref` under `hash`.
    pub fn insert(&mut self, hash: u64, gc_ref: GcRef)
        ensures
            final(self).entries() == old(self).entries().insert(hash, gc_ref),
    {
        self.table.insert(hash, gc_ref);
    }

    /// Drops every entry whose object `is_marked` does not accept.
    pub fn remove_unmarked<F: Fn(GcRef) -> bool>(&mut self, is_marked: F)
        requires
            forall|h: u64| #[trigger]
                old(self).entries().contains_key(h) ==> is_marked.requires(
                    (old(self).entries()[h],),
                ),
        ensures
            forall|h: u64| #[trigger]
                final(self).entries().contains_key(h) ==> old(self).entries().contains_key(h)
                    && final(self).entries()[h] == old(self).entries()[h]
                    && is_marked.ensures((old(self).entries()[h],), true),
            forall|h: u64| #[trigger]
                old(self).entries().contains_key(h) && !final(self).entries().contains_key(h)
                    ==> is_marked.ensures((old(self).entries()[h],), false),
    {
        let entries = self.table.entries();
        let ghost m0 = self.entries();
        let mut i: usize = 0;
        while i < entries.len()
            invariant
                0 <= i <= entries@.len(),
                m0 == old(self).entries(),
                forall|h: u64, g: GcRef| #[trigger]
                    entries@.contains((h, g)) <==> (m0.contains_key(h) && m0[h] == g),
                forall|h: u64| #![trigger m0.contains_key(h)] m0.contains_key(h) ==> is_marked.requires((m0[h],)),
                forall|h: u64| #[trigger]
                    self.entries().contains_key(h) ==> m0.contains_key(h) && self.entries()[h]
                        == m0[h],
                forall|h: u64|
                    #![trigger self.entries().contains_key(h)]
                    m0.contains_key(h) && !self.entries().contains_key(h) ==> is_marked.ensures(
                        (m0[h],),
                        false,
                    ),
                forall|j: int|
                    0 <= j < i && self.entries().contains_key(#[trigger] entries@[j].0)
                        ==> is_marked.ensures((entries@[j].1,), true),
            decreases entries@.len() - i,
        {
            let (h, g) = entries[i];
            assert(entries@.contains((h, g)));
            let keep = is_marked(g);
            if !keep {
                let ghost before = self.entries();
                self.table.remove(h);
                proof {
                    assert forall|k: u64| #[trigger]
                        self.entries().contains_key(k) implies m0.contains_key(k)
                            && self.entries()[k] == m0[k] by {
                        assert(before.contains_key(k));
                    }
                    assert forall|k: u64|
                        m0.contains_key(k) && !#[trigger] self.entries().contains_key(k)
                            implies is_marked.ensures((m0[k],), false) by {
                        if k != h {
                            assert(!before.contains_key(k));
                        }
                    }
                }
            }
            i = i + 1;
        }
        proof {
            assert forall|h: u64| #[trigger]
                self.entries().contains_key(h) implies is_marked.ensures((m0[h],), true) by {
                assert(entries@.contains((h, m0[h])));
                let j = choose|j: int| 0 <= j < entries@.len() && entries@[j] == (h, m0[h]);
                assert(entries@[j].0 == h);
            }
        }
    }

    /// The hasher the table was made with.
    pub closed spec fn hasher_view(&self) -> BuildHasherDefault<DefaultHasher> {
        self.hasher
    }

    /// The hasher.
    pub fn hasher(&self) -> (r: &BuildHasherDefault<DefaultHasher>)
        ensures
            *r == self.hasher_view(),
    {
        &self.hasher
    }
}

// ---------------------------------------------------------------------------
// Identifier ids
// ---------------------------------------------------------------------------

/// The index of an interned identifier.
#[derive(PartialEq, Eq, Structural, Hash, Clone, Copy, Debug, Default)]
pub struct StrId {
    pub idx: u16,
}

impl StrId {
    /// The index as a number.
    pub fn as_u16(&self) -> (r: u16)
        ensures
            r == self.idx,
    {
        self.idx
    }
}

impl From<usize> for StrId {
    fn from(value: usize) -> (r: StrId) {
        StrId { idx: value as u16 }
    }
}

impl vstd::std_specs::convert::FromSpecImpl<usize> for StrId {
    open spec fn obeys_from_spec() -> bool {
        true
    }

    open spec fn from_spec(v: usize) -> StrId {
        StrId { idx: v as u16 }
    }
}

impl From<u16> for StrId {
    fn from(value: u16) -> (r: StrId) {
        StrId { idx: value }
    }
}

impl vstd::std_specs::convert::FromSpecImpl<u16> for StrId {
    open spec fn obeys_from_spec() -> bool {
        true
    }

    open spec fn from_spec(v: u16) -> StrId {
        StrId { idx: v }
    }
}

impl From<i32> for StrId {
    fn from(value: i32) -> (r: StrId) {
        StrId { idx: value as u16 }
    }
}

impl vstd::std_specs::convert::FromSpecImpl<i32> for StrId {
    open spec fn obeys_from_spec() -> bool {
        true
    }

    open spec fn from_spec(v: i32) -> StrId {
        StrId { idx: v as u16 }
    }
}

// ---------------------------------------------------------------------------
// The string index of the interner, kept in a hashbrown table
// ---------------------------------------------------------------------------

/// Whether `strings[i]` exists and spells `val`.
fn string_at_is(strings: &Vec<String>, i: usize, val: &str) -> (r: bool)
    ensures
        r == (i < strings@.len() && strings@[i as int]@ == val@),
{
    if i < strings.len() {
        let s = strings[i].as_str();
        str_eq(s, val)
    } else {
        false
    }
}

/// The hash of `strings[i]`, or 0 where there is no such string.
fn hash_of_string_at(hasher: &BuildHasherDefault<DefaultHasher>, strings: &Vec<String>, i: usize) -> (r: u64)
    ensures
        i < strings@.len() ==> r == str_hash(strings@[i as int]@),
{
    if i < strings.len() {
        hash_one_str(hasher, strings[i].as_str())
    } else {
        0
    }
}

/// Indices of interned strings, by hash, in a `hashbrown::HashTable`.
#[verifier::external_body]
pub struct StringIndex {
    table: HashTable<usize>,
}

/// The indices held by a string index, each with the hash it was stored under.
pub uninterp spec fn string_index_entries(t: StringIndex) -> Map<usize, u64>;

impl StringIndex {
    /// Calls `hashbrown::HashTable::new`, which makes an empty table.
    #[verifier::external_body]
    fn new() -> (t: StringIndex)
        ensures
            string_index_entries(t) =~= Map::empty(),
    {
        StringIndex { table: HashTable::new() }
    }

    /// Calls `hashbrown::HashTable::find` with an equality that compares the indexed string
    /// with `val`: it returns an index whose string is `val`, and it finds one wherever an
    /// index stored under `hash` has that string.
    #[verifier::external_body]
    fn find(&self, hash: u64, strings: &Vec<String>, val: &str) -> (r: Option<usize>)
        ensures
            r matches Some(i) ==> string_index_entries(*self).contains_key(i) && i
                < strings@.len() && strings@[i as int]@ == val@,
            r is None ==> forall|i: usize|
                #[trigger] string_index_entries(*self).contains_key(i) && string_index_entries(
                    *self,
                )[i] == hash && i < strings@.len() ==> strings@[i as int]@ != val@,
    {
        self.table.find(hash, |i| string_at_is(strings, *i, val)).copied()
    }

    /// Calls `hashbrown::HashTable::insert_unique`, which stores `idx` under `hash`; entries
    /// the table moves are rehashed from their strings.
    #[verifier::external_body]
    fn insert_unique(
        &mut self,
        hash: u64,
        idx: usize,
        hasher: &BuildHasherDefault<DefaultHasher>,
        strings: &Vec<String>,
    )
        requires
            forall|i: usize| #[trigger]
                string_index_entries(*old(self)).contains_key(i) ==> i < strings@.len()
                    && string_index_entries(*old(self))[i] == str_hash(strings@[i as int]@),
        ensures
            string_index_entries(*final(self)) == string_index_entries(*old(self)).insert(
                idx,
                hash,
            ),
    {
        self.table.insert_unique(hash, idx, |i| hash_of_string_at(hasher, strings, *i));
    }
}

// ---------------------------------------------------------------------------
// The interner
// ---------------------------------------------------------------------------

/// The texts of interned strings, in order.
pub open spec fn texts(strings: Seq<String>) -> Seq<Seq<char>> {
    strings.map_values(|s: String| s@)
}

/// The position of `v` among distinct texts, if present.
pub open spec fn position_of(ts: Seq<Seq<char>>, v: Seq<char>) -> Option<int> {
    if ts.contains(v) {
        Some(choose|i: int| 0 <= i < ts.len() && ts[i] == v)
    } else {
        None
    }
}

/// What interning `v` does to the texts `ts`: the texts afterwards, and the id given.
pub open spec fn interned(ts: Seq<Seq<char>>, v: Seq<char>) -> (Seq<Seq<char>>, u16) {
    match position_of(ts, v) {
        Some(i) => (ts, i as u16),
        None => (ts.push(v), ts.len() as u16),
    }
}

/// Interns identifier names: each distinct text gets the index at which it was first seen.
pub struct Interner {
    all_strings: Vec<String>,
    raw_table: StringIndex,
    hasher: BuildHasherDefault<DefaultHasher>,
}

/// The interner with the default hasher.
pub type DefaultInterner = Interner;

impl Interner {
    /// The interned texts, in order of first appearance.
    /// The hasher that the name index hashes with.
    pub closed spec fn build_hasher(&self) -> BuildHasherDefault<DefaultHasher> {
        self.hasher
    }

    pub closed spec fn strings(&self) -> Seq<Seq<char>> {
        texts(self.all_strings@)
    }

    /// The texts are distinct and each is indexed under its hash.
    pub closed spec fn wf(&self) -> bool {
        &&& self.strings().no_duplicates()
        &&& forall|i: usize| #[trigger]
            string_index_entries(self.raw_table).contains_key(i) <==> i < self.all_strings@.len()
        &&& forall|i: usize| #[trigger]
            string_index_entries(self.raw_table).contains_key(i) ==> string_index_entries(
                self.raw_table,
            )[i] == str_hash(self.all_strings@[i as int]@)
    }

    /// A well-formed interner holds each text once.
    pub proof fn lemma_distinct(&self)
        requires
            self.wf(),
        ensures
            self.strings().no_duplicates(),
    {
    }

    /// An empty interner.
    pub fn new(hasher: BuildHasherDefault<DefaultHasher>) -> (r: Self)
        ensures
            r.wf(),
            r.strings() == Seq::<Seq<char>>::empty(),
            r.build_hasher() == hasher,
    {
        let r = Interner { raw_table: StringIndex::new(), hasher, all_strings: Vec::new() };
        assert(r.strings() =~= Seq::<Seq<char>>::empty());
        r
    }

    /// The id of `val`: the index of its first appearance, truncated to 16 bits; a text not
    /// seen before is appended.
    pub fn intern_str(&mut self, val: &str) -> (r: StrId)
        requires
            old(self).wf(),
        ensures
            final(self).wf(),
            (final(self).strings(), r.idx) == interned(old(self).strings(), val@),
    {
        let h = hash_one_str(&self.hasher, val);
        match self.raw_table.find(h, &self.all_strings, val) {
            Some(idx) => {
                proof {
                    self.lemma_position(idx as int);
                }
                StrId { idx: idx as u16 }
            },
            None => {
                proof {
                    self.lemma_absent(val@, h);
                }
                self.insert_unique_value(val.to_owned())
            },
        }
    }

    /// The id of `val`, as `intern_str` gives it.
    pub fn intern_string(&mut self, val: String) -> (r: StrId)
        requires
            old(self).wf(),
        ensures
            final(self).wf(),
            (final(self).strings(), r.idx) == interned(old(self).strings(), val@),
    {
        let h = hash_one_str(&self.hasher, val.as_str());
        match self.raw_table.find(h, &self.all_strings, val.as_str()) {
            Some(idx) => {
                proof {
                    self.lemma_position(idx as int);
                }
                StrId { idx: idx as u16 }
            },
            None => {
                proof {
                    self.lemma_absent(val@, h);
                }
                self.insert_unique_value(val)
            },
        }
    }

    proof fn lemma_position(&self, i: int)
        requires
            self.wf(),
            0 <= i < self.all_strings@.len(),
        ensures
            self.strings().contains(self.all_strings@[i]@),
            position_of(self.strings(), self.all_strings@[i]@) == Some(i),
    {
        let ts = self.strings();
        assert(ts[i] == self.all_strings@[i]@);
        let j = choose|j: int| 0 <= j < ts.len() && ts[j] == self.all_strings@[i]@;
        assert(ts.no_duplicates());
    }

    proof fn lemma_absent(&self, v: Seq<char>, h: u64)
        requires
            self.wf(),
            h == str_hash(v),
            forall|i: usize|
                #[trigger] string_index_entries(self.raw_table).contains_key(i)
                    && string_index_entries(self.raw_table)[i] == h && i < self.all_strings@.len()
                    ==> self.all_strings@[i as int]@ != v,
        ensures
            !self.strings().contains(v),
    {
        if self.strings().contains(v) {
            let j = choose|j: int| 0 <= j < self.strings().len() && self.strings()[j] == v;
            assert(self.strings()[j] == self.all_strings@[j]@);
            assert(self.strings().len() == self.all_strings.len());
            let ju = j as usize;
            assert(ju as int == j);
            assert(string_index_entries(self.raw_table).contains_key(ju));
        }
    }

    fn insert_unique_value(&mut self, value: String) -> (r: StrId)
        requires
            old(self).wf(),
            !old(self).strings().contains(value@),
        ensures
            final(self).wf(),
            final(self).strings() == old(self).strings().push(value@),
            r.idx == old(self).strings().len() as u16,
    {
        let h = hash_one_str(&self.hasher, value.as_str());
        let idx = self.all_strings.len();
        self.raw_table.insert_unique(h, idx, &self.hasher, &self.all_strings);
        self.all_strings.push(value);
        proof {
            assert(self.strings() =~= old(self).strings().push(value@));
            assert forall|i: usize| #[trigger]
                string_index_entries(self.raw_table).contains_key(i) implies string_index_entries(
                    self.raw_table,
                )[i] == str_hash(self.all_strings@[i as int]@) by {
                if i < idx {
                    assert(self.all_strings@[i as int] == old(self).all_strings@[i as int]);
                }
            }
            assert forall|a: int, b: int|
                0 <= a < self.strings().len() && 0 <= b < self.strings().len() && a != b
                implies self.strings()[a] != self.strings()[b] by {
                if a < idx && b < idx {
                    assert(old(self).strings()[a] == self.strings()[a]);
                    assert(old(self).strings()[b] == self.strings()[b]);
                } else if a == idx {
                    assert(old(self).strings()[b] == self.strings()[b]);
                } else {
                    assert(old(self).strings()[a] == self.strings()[a]);
                }
            }
        }
        StrId { idx: idx as u16 }
    }

    /// The text interned under `key`.
    pub fn get_str(&self, key: StrId) -> (r: &str)
        requires
            (key.idx as int) < self.strings().len(),
        ensures
            r@ == self.strings()[key.idx as int],
    {
        self.all_strings[key.idx as usize].as_str()
    }

    /// How many texts are interned.
    pub fn count(&self) -> (r: usize)
        ensures
            r == self.strings().len(),
    {
        self.all_strings.len()
    }
}

/// Interning a text a second time gives the id it got the first time, and adds nothing.
pub proof fn lemma_intern_twice(ts: Seq<Seq<char>>, v: Seq<char>)
    requires
        ts.no_duplicates(),
    ensures
        interned(interned(ts, v).0, v) == interned(ts, v),
{
    let once = interned(ts, v).0;
    if !ts.contains(v) {
        assert(once[ts.len() as int] == v);
        assert(once.contains(v));
        let j = choose|j: int| 0 <= j < once.len() && once[j] == v;
        if j < ts.len() {
            assert(once[j] == ts[j]);
        }
        assert(j == ts.len());
    }
}

/// The text read back under the id that interning gave is the text interned, while fewer than
/// 2^16 texts have been interned.
pub proof fn lemma_get_after_intern(ts: Seq<Seq<char>>, v: Seq<char>)
    requires
        ts.no_duplicates(),
        ts.len() < 65536,
    ensures
        interned(ts, v).0[interned(ts, v).1 as int] == v,
{
    if ts.contains(v) {
        let j = choose|j: int| 0 <= j < ts.len() && ts[j] == v;
        assert(j as u16 == j);
    } else {
        assert(ts.len() as u16 == ts.len());
    }
}

} // verus!
