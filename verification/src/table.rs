//! A keyed table: a map whose entries can be walked by position.
//!
//! No two entries share a key, and an entry keeps its place for as long as
//! its key stays in the table.

use crate::text::{same_text, text_digest};
use std::collections::HashMap;
use vstd::prelude::*;

verus! {

broadcast use vstd::std_specs::hash::group_hash_axioms;

/// What can key a [`Table`].
pub trait Key: View + Sized {
    /// What a key is looked up by.
    type Probe: View<V = Self::V> + ?Sized;

    /// A number that spreads keys over the index; distinct keys may share it.
    spec fn digest_of(key: Self::V) -> u64;

    /// The digest of the key that the probe names.
    fn digest(probe: &Self::Probe) -> (d: u64)
        ensures
            d == Self::digest_of(probe@),
    ;

    /// Whether the probe names this key.
    fn matches(&self, probe: &Self::Probe) -> (same: bool)
        ensures
            same == (self@ == probe@),
    ;

    /// The probe that names this key.
    fn probe(&self) -> (probe: &Self::Probe)
        ensures
            probe@ == self@,
    ;

    /// Another copy of this key.
    fn copy(&self) -> (key: Self)
        ensures
            key@ == self@,
    ;
}

impl Key for String {
    type Probe = str;

    open spec fn digest_of(key: Seq<char>) -> u64 {
        crate::text::digest_of_text(key)
    }

    fn digest(probe: &str) -> (d: u64) {
        text_digest(probe)
    }

    fn matches(&self, probe: &str) -> (same: bool) {
        same_text(self.as_str(), probe)
    }

    fn probe(&self) -> (probe: &str) {
        self.as_str()
    }

    fn copy(&self) -> (key: String) {
        self.clone()
    }
}

impl Key for u32 {
    type Probe = u32;

    open spec fn digest_of(key: u32) -> u64 {
        key as u64
    }

    fn digest(probe: &u32) -> (d: u64) {
        *probe as u64
    }

    fn matches(&self, probe: &u32) -> (same: bool) {
        *self == *probe
    }

    fn probe(&self) -> (probe: &u32) {
        self
    }

    fn copy(&self) -> (key: u32) {
        *self
    }
}

/// A value that can be copied.
pub trait Duplicate: View + Sized {
    /// Another copy of this value.
    fn duplicate(&self) -> (copy: Self)
        ensures
            copy@ == self@,
    ;
}

/// Whether no key occurs twice among the entries.
pub open spec fn unique_keys<A, B>(entries: Seq<(A, B)>) -> bool {
    forall|i: int, j: int|
        #![trigger entries[i], entries[j]]
        0 <= i < j < entries.len() ==> entries[i].0 != entries[j].0
}

/// Whether `key` stands at position `i`.
pub open spec fn key_at<A, B>(entries: Seq<(A, B)>, key: A, i: int) -> bool {
    0 <= i < entries.len() && entries[i].0 == key
}

/// Whether `key` has an entry.
pub open spec fn has_key<A, B>(entries: Seq<(A, B)>, key: A) -> bool {
    exists|i: int| key_at(entries, key, i)
}

/// Where `key` has its entry.
pub open spec fn position<A, B>(entries: Seq<(A, B)>, key: A) -> int {
    choose|i: int| key_at(entries, key, i)
}

/// The map that the entries amount to.
pub open spec fn to_map<A, B>(entries: Seq<(A, B)>) -> Map<A, B> {
    Map::new(|key: A| has_key(entries, key), |key: A| entries[position(entries, key)].1)
}

/// The entries after `key` was given `value`: in its place if it has an entry,
/// at the end if not.
pub open spec fn put<A, B>(entries: Seq<(A, B)>, key: A, value: B) -> Seq<(A, B)> {
    if has_key(entries, key) {
        entries.update(position(entries, key), (key, value))
    } else {
        entries.push((key, value))
    }
}

/// The entries after that of `key`, if any, was taken out; the last one takes its
/// place.
pub open spec fn without<A, B>(entries: Seq<(A, B)>, key: A) -> Seq<(A, B)> {
    if has_key(entries, key) {
        entries.update(position(entries, key), entries.last()).drop_last()
    } else {
        entries
    }
}

/// In entries with unique keys a key stands in one place only, and the map
/// gives it the value that stands there.
pub proof fn lemma_position<A, B>(entries: Seq<(A, B)>, key: A, i: int)
    requires
        unique_keys(entries),
        key_at(entries, key, i),
    ensures
        has_key(entries, key),
        position(entries, key) == i,
        to_map(entries).contains_key(key),
        to_map(entries)[key] == entries[i].1,
{
    let p = position(entries, key);
    assert(key_at(entries, key, p));
    if p < i {
        assert(entries[p].0 != entries[i].0);
    } else if i < p {
        assert(entries[i].0 != entries[p].0);
    }
}

/// Putting an entry keeps keys unique and inserts into the map.
pub proof fn lemma_put<A, B>(entries: Seq<(A, B)>, key: A, value: B)
    requires
        unique_keys(entries),
    ensures
        unique_keys(put(entries, key, value)),
        to_map(put(entries, key, value)) == to_map(entries).insert(key, value),
{
    let after = put(entries, key, value);
    let p = if has_key(entries, key) {
        position(entries, key)
    } else {
        entries.len() as int
    };
    if has_key(entries, key) {
        assert(key_at(entries, key, p));
    }
    assert(forall|i: int| 0 <= i < entries.len() && i != p ==> after[i] == entries[i]);
    assert(after[p] == (key, value));
    assert forall|i: int, j: int|
        #![trigger after[i], after[j]]
        0 <= i < j < after.len() implies after[i].0 != after[j].0 by {
        if i == p {
            assert(entries[j] == after[j]);
            if entries[j].0 == key {
                assert(key_at(entries, key, j));
                lemma_position(entries, key, j);
            }
        } else if j == p {
            assert(entries[i] == after[i]);
            if entries[i].0 == key {
                assert(key_at(entries, key, i));
                if has_key(entries, key) {
                    lemma_position(entries, key, i);
                }
            }
        } else {
            assert(entries[i] == after[i] && entries[j] == after[j]);
        }
    }
    let left = to_map(after);
    let right = to_map(entries).insert(key, value);
    assert forall|k: A| left.contains_key(k) == right.contains_key(k) by {
        if left.contains_key(k) {
            let i = position(after, k);
            assert(key_at(after, k, i));
            if i != p {
                assert(key_at(entries, k, i));
            }
        }
        if right.contains_key(k) {
            if k == key {
                assert(key_at(after, k, p));
            } else {
                let i = position(entries, k);
                assert(key_at(entries, k, i));
                assert(key_at(after, k, i));
            }
        }
    }
    assert forall|k: A| left.contains_key(k) implies left[k] == right[k] by {
        if k == key {
            assert(key_at(after, k, p));
            lemma_position(after, k, p);
        } else {
            let i = position(after, k);
            assert(key_at(after, k, i));
            assert(i != p);
            assert(key_at(entries, k, i));
            lemma_position(entries, k, i);
        }
    }
    assert(left =~= right);
}

/// Taking an entry out keeps keys unique and removes from the map.
pub proof fn lemma_without<A, B>(entries: Seq<(A, B)>, key: A)
    requires
        unique_keys(entries),
    ensures
        unique_keys(without(entries, key)),
        to_map(without(entries, key)) == to_map(entries).remove(key),
{
    let after = without(entries, key);
    let left = to_map(after);
    let right = to_map(entries).remove(key);
    if has_key(entries, key) {
        let p = position(entries, key);
        assert(key_at(entries, key, p));
        let last = entries.len() - 1;
        assert forall|i: int, j: int|
            #![trigger after[i], after[j]]
            0 <= i < j < after.len() implies after[i].0 != after[j].0 by {
            let a = if i == p {
                last
            } else {
                i
            };
            let b = if j == p {
                last
            } else {
                j
            };
            assert(after[i] == entries[a] && after[j] == entries[b]);
        }
        assert forall|k: A| #[trigger] left.contains_key(k) implies right.contains_key(k)
            && left[k] == right[k] by {
            let i = position(after, k);
            assert(key_at(after, k, i));
            let a = if i == p {
                last
            } else {
                i
            };
            assert(key_at(entries, k, a));
            lemma_position(entries, k, a);
            lemma_position(entries, key, p);
        }
        assert forall|k: A| #[trigger] right.contains_key(k) implies left.contains_key(k) by {
            let a = position(entries, k);
            assert(key_at(entries, k, a));
            let i = if a == last {
                p
            } else {
                a
            };
            assert(key_at(after, k, i));
        }
        assert(left =~= right);
    } else {
        assert(!to_map(entries).contains_key(key));
        assert(to_map(entries) =~= right);
    }
}

/// One more entry inserts one more key into the map.
pub proof fn lemma_take<A, B>(entries: Seq<(A, B)>, i: int)
    requires
        unique_keys(entries),
        0 <= i < entries.len(),
    ensures
        unique_keys(entries.take(i)),
        !has_key(entries.take(i), entries[i].0),
        to_map(entries.take(i + 1)) == to_map(entries.take(i)).insert(entries[i].0, entries[i].1),
{
    let before = entries.take(i);
    assert forall|a: int, b: int|
        #![trigger before[a], before[b]]
        0 <= a < b < before.len() implies before[a].0 != before[b].0 by {
        assert(before[a] == entries[a] && before[b] == entries[b]);
    }
    if has_key(before, entries[i].0) {
        let p = position(before, entries[i].0);
        assert(key_at(before, entries[i].0, p));
        assert(before[p] == entries[p]);
        assert(entries[p].0 != entries[i].0);
    }
    lemma_put(before, entries[i].0, entries[i].1);
    assert(entries.take(i + 1) =~= before.push(entries[i]));
}

/// No entries make an empty map.
pub proof fn lemma_no_entries<A, B>(entries: Seq<(A, B)>)
    requires
        entries.len() == 0,
    ensures
        to_map(entries) == Map::<A, B>::empty(),
{
    assert(to_map(entries) =~= Map::<A, B>::empty());
}

/// How many entries satisfy `wanted`.
pub open spec fn count_entries<A, B>(entries: Seq<(A, B)>, wanted: spec_fn(B) -> bool) -> nat
    decreases entries.len(),
{
    if entries.len() == 0 {
        0
    } else {
        count_entries(entries.drop_last(), wanted) + if wanted(entries.last().1) {
            1nat
        } else {
            0nat
        }
    }
}

/// The keys of a map whose values satisfy `wanted`.
pub open spec fn keys_where<A, B>(map: Map<A, B>, wanted: spec_fn(B) -> bool) -> Set<A> {
    map.dom().filter(|key: A| wanted(map[key]))
}

/// Counting entries counts keys.
pub proof fn lemma_count<A, B>(entries: Seq<(A, B)>, wanted: spec_fn(B) -> bool)
    requires
        unique_keys(entries),
    ensures
        keys_where(to_map(entries), wanted).finite(),
        keys_where(to_map(entries), wanted).len() == count_entries(entries, wanted),
    decreases entries.len(),
{
    let all = keys_where(to_map(entries), wanted);
    if entries.len() == 0 {
        lemma_no_entries(entries);
        assert(all =~= Set::empty());
    } else {
        let i = entries.len() - 1;
        let (key, value) = entries[i];
        lemma_take(entries, i);
        assert(entries.take(i + 1) =~= entries);
        assert(entries.take(i) =~= entries.drop_last());
        lemma_count(entries.take(i), wanted);
        let before = keys_where(to_map(entries.take(i)), wanted);
        assert(!before.contains(key));
        if wanted(value) {
            assert(all =~= before.insert(key));
        } else {
            assert(all =~= before);
        }
    }
}

/// There are as many keys as entries.
pub proof fn lemma_all_counted<A, B>(entries: Seq<(A, B)>)
    requires
        unique_keys(entries),
    ensures
        to_map(entries).dom().finite(),
        to_map(entries).dom().len() == entries.len(),
    decreases entries.len(),
{
    if entries.len() == 0 {
        lemma_no_entries(entries);
    } else {
        let i = entries.len() - 1;
        lemma_take(entries, i);
        assert(entries.take(i + 1) =~= entries);
        lemma_all_counted(entries.take(i));
        assert(!to_map(entries.take(i)).contains_key(entries[i].0));
    }
}

/// Entries with the same keys in the same places make maps with the same keys,
/// each of whose values stands in the key's place.
pub proof fn lemma_aligned<A, B, C>(left: Seq<(A, B)>, right: Seq<(A, C)>, key: A)
    requires
        unique_keys(left),
        left.len() == right.len(),
        forall|i: int| 0 <= i < left.len() ==> (#[trigger] left[i]).0 == right[i].0,
    ensures
        unique_keys(right),
        to_map(left).contains_key(key) == to_map(right).contains_key(key),
        to_map(left).contains_key(key) ==> {
            let p = position(left, key);
            &&& key_at(left, key, p)
            &&& to_map(left)[key] == left[p].1
            &&& to_map(right)[key] == right[p].1
        },
{
    assert forall|i: int, j: int|
        #![trigger right[i], right[j]]
        0 <= i < j < right.len() implies right[i].0 != right[j].0 by {
        assert(left[i].0 == right[i].0 && left[j].0 == right[j].0);
    }
    if has_key(left, key) {
        let p = position(left, key);
        assert(key_at(left, key, p));
        assert(key_at(right, key, p));
        lemma_position(right, key, p);
    }
    if has_key(right, key) {
        let p = position(right, key);
        assert(key_at(right, key, p));
        assert(left[p].0 == right[p].0);
        assert(key_at(left, key, p));
    }
}

/// For each digest, the positions of the entries whose keys have it.
struct Index {
    places: HashMap<u64, Vec<usize>>,
}

impl Index {
    /// Whether position `i` is listed under the digest `d`.
    spec fn lists(&self, d: u64, i: usize) -> bool {
        self.places@.contains_key(d) && self.places@[d]@.contains(i)
    }

    /// No position is listed twice under one digest.
    spec fn tidy(&self) -> bool {
        forall|d: u64| #[trigger] self.places@.contains_key(d) ==> self.places@[d]@.no_duplicates()
    }

    /// Every position is listed under its digest, and nothing else is.
    spec fn covers(&self, digests: Seq<u64>) -> bool {
        &&& self.tidy()
        &&& forall|d: u64, i: usize| #[trigger]
            self.lists(d, i) <==> i < digests.len() && digests[i as int] == d
    }

    fn new() -> (index: Self)
        ensures
            index.covers(Seq::<u64>::empty()),
    {
        Index { places: HashMap::new() }
    }

    /// List position `i` under the digest `d`.
    fn note(&mut self, d: u64, i: usize)
        requires
            old(self).tidy(),
            !old(self).lists(d, i),
        ensures
            final(self).tidy(),
            forall|e: u64, j: usize| #[trigger]
                final(self).lists(e, j) <==> old(self).lists(e, j) || (e == d && j == i),
    {
        let ghost before = *self;
        let mut places = match self.places.remove(&d) {
            Some(places) => places,
            None => Vec::new(),
        };
        let ghost listed = places@;
        places.push(i);
        self.places.insert(d, places);
        proof {
            let now_listed = listed.push(i);
            assert(now_listed[listed.len() as int] == i);
            assert forall|e: u64, j: usize| #[trigger]
                self.lists(e, j) <==> before.lists(e, j) || (e == d && j == i) by {
                if e == d && listed.contains(j) {
                    let k = choose|k: int| 0 <= k < listed.len() && listed[k] == j;
                    assert(now_listed[k] == j);
                }
            }
        }
    }

    /// Strike position `i` from the digest `d`.
    fn strike(&mut self, d: u64, i: usize)
        requires
            old(self).tidy(),
        ensures
            final(self).tidy(),
            forall|e: u64, j: usize| #[trigger]
                final(self).lists(e, j) <==> old(self).lists(e, j) && !(e == d && j == i),
    {
        let ghost before = *self;
        let mut places = match self.places.remove(&d) {
            Some(places) => places,
            None => return,
        };
        let ghost listed = places@;
        let mut k: usize = 0;
        while k < places.len() && places[k] != i
            invariant
                places@ == listed,
                k <= listed.len(),
                forall|n: int| 0 <= n < k ==> listed[n] != i,
            decreases listed.len() - k,
        {
            k = k + 1;
        }
        if k < places.len() {
            let _ = places.swap_remove(k);
        }
        let ghost left = places@;
        proof {
            assert(left.no_duplicates());
            assert forall|j: usize| #[trigger] left.contains(j) <==> listed.contains(j) && j != i by {
                if left.contains(j) {
                    let n = choose|n: int| 0 <= n < left.len() && left[n] == j;
                    if k < listed.len() && n == k {
                        assert(listed[listed.len() - 1] == j);
                    } else {
                        assert(listed[n] == j);
                    }
                }
                if listed.contains(j) && j != i {
                    let n = choose|n: int| 0 <= n < listed.len() && listed[n] == j;
                    if k < listed.len() && n == listed.len() - 1 {
                        assert(left[k as int] == j);
                    } else {
                        assert(left[n] == j);
                    }
                }
            }
        }
        if places.len() > 0 {
            self.places.insert(d, places);
        }
        proof {
            assert forall|e: u64, j: usize| #[trigger]
                self.lists(e, j) <==> before.lists(e, j) && !(e == d && j == i) by {
                if e == d {
                    assert(left.contains(j) <==> listed.contains(j) && j != i);
                }
            }
        }
    }
}

/// A map from keys to values whose entries stand in a row.
pub struct Table<K: Key, V: View> {
    rows: Vec<(K, V)>,
    index: Index,
}

impl<K: Key, V: View> View for Table<K, V> {
    type V = Map<K::V, V::V>;

    open spec fn view(&self) -> Map<K::V, V::V> {
        to_map(self.entries())
    }
}

impl<K: Key, V: View> Table<K, V> {
    /// The entries in the order in which they stand.
    pub closed spec fn entries(&self) -> Seq<(K::V, V::V)> {
        Seq::new(self.rows@.len(), |i: int| (self.rows@[i].0@, self.rows@[i].1@))
    }

    /// The digests of the keys, in the order in which the entries stand.
    spec fn digests(&self) -> Seq<u64> {
        Seq::new(self.rows@.len(), |i: int| K::digest_of(self.rows@[i].0@))
    }

    /// The index finds every entry.
    pub closed spec fn indexed(&self) -> bool {
        self.index.covers(self.digests())
    }

    /// No key occurs twice, and the index finds every entry.
    pub open spec fn wf(&self) -> bool {
        unique_keys(self.entries()) && self.indexed()
    }

    /// A table without entries.
    pub fn new() -> (table: Self)
        ensures
            table.wf(),
            table.entries() == Seq::<(K::V, V::V)>::empty(),
            table@ == Map::<K::V, V::V>::empty(),
    {
        let table: Self = Table { rows: Vec::new(), index: Index::new() };
        assert(table.digests() =~= Seq::<u64>::empty());
        assert(table.entries() =~= Seq::<(K::V, V::V)>::empty());
        assert(table@ =~= Map::<K::V, V::V>::empty());
        table
    }

    /// How many entries there are.
    pub fn len(&self) -> (n: usize)
        ensures
            n == self.entries().len(),
    {
        self.rows.len()
    }

    /// The key of the entry at `i`.
    pub fn key(&self, i: usize) -> (key: &K)
        requires
            i < self.entries().len(),
        ensures
            key@ == self.entries()[i as int].0,
    {
        &self.rows[i].0
    }

    /// The value of the entry at `i`.
    pub fn value(&self, i: usize) -> (value: &V)
        requires
            i < self.entries().len(),
        ensures
            value@ == self.entries()[i as int].1,
    {
        &self.rows[i].1
    }

    /// Where the probe's entry stands, if it has one.
    pub fn find(&self, probe: &K::Probe) -> (found: Option<usize>)
        requires
            self.wf(),
        ensures
            match found {
                Some(i) => key_at(self.entries(), probe@, i as int) && has_key(
                    self.entries(),
                    probe@,
                ) && position(self.entries(), probe@) == i,
                None => !has_key(self.entries(), probe@),
            },
    {
        let d = K::digest(probe);
        match self.index.places.get(&d) {
            Some(places) => {
                let mut j: usize = 0;
                while j < places.len()
                    invariant
                        j <= places.len(),
                        self.wf(),
                        self.index.places@.contains_key(d),
                        self.index.places@[d] == *places,
                        forall|k: int|
                            0 <= k < j ==> !key_at(
                                self.entries(),
                                probe@,
                                #[trigger] places@[k] as int,
                            ),
                    decreases places.len() - j,
                {
                    let i: usize = places[j];
                    assert(self.index.lists(d, places@[j as int]));
                    if self.rows[i].0.matches(probe) {
                        assert(key_at(self.entries(), probe@, i as int));
                        proof {
                            lemma_position(self.entries(), probe@, i as int);
                        }
                        return Some(i);
                    }
                    j = j + 1;
                }
                proof {
                    if has_key(self.entries(), probe@) {
                        let i = position(self.entries(), probe@);
                        assert(key_at(self.entries(), probe@, i));
                        assert(0 <= i < self.rows.len());
                        assert(self.digests()[i] == d);
                        assert(self.index.lists(d, i as usize));
                        let k = choose|k: int|
                            0 <= k < places@.len() && places@[k] == i as usize;
                        assert(!key_at(self.entries(), probe@, places@[k] as int));
                    }
                }
                None
            },
            None => {
                proof {
                    if has_key(self.entries(), probe@) {
                        let i = position(self.entries(), probe@);
                        assert(key_at(self.entries(), probe@, i));
                        assert(0 <= i < self.rows.len());
                        assert(self.digests()[i] == d);
                        assert(self.index.lists(d, i as usize));
                    }
                }
                None
            },
        }
    }

    /// The value of the probe's entry, if it has one.
    pub fn get(&self, probe: &K::Probe) -> (found: Option<&V>)
        requires
            self.wf(),
        ensures
            match found {
                Some(value) => self@.contains_key(probe@) && value@ == self@[probe@],
                None => !self@.contains_key(probe@),
            },
    {
        match self.find(probe) {
            Some(i) => {
                proof {
                    lemma_position(self.entries(), probe@, i as int);
                }
                Some(self.value(i))
            },
            None => None,
        }
    }

    /// Whether the probe has an entry.
    pub fn contains_key(&self, probe: &K::Probe) -> (found: bool)
        requires
            self.wf(),
        ensures
            found == self@.contains_key(probe@),
    {
        self.find(probe).is_some()
    }

    /// Put `value` into the entry at `i`, and hand back the old one.
    pub fn replace(&mut self, i: usize, value: V) -> (old_value: V)
        requires
            old(self).wf(),
            i < old(self).entries().len(),
        ensures
            final(self).wf(),
            old_value@ == old(self).entries()[i as int].1,
            final(self).entries() == old(self).entries().update(
                i as int,
                (old(self).entries()[i as int].0, value@),
            ),
            final(self)@ == old(self)@.insert(old(self).entries()[i as int].0, value@),
    {
        let ghost before = self.entries();
        let ghost key = before[i as int].0;
        proof {
            assert(key_at(before, key, i as int));
            lemma_position(before, key, i as int);
            lemma_put(before, key, value@);
        }
        let mut slot = value;
        core::mem::swap(&mut self.rows[i].1, &mut slot);
        assert(self.entries() =~= put(before, key, value@));
        assert(self.digests() =~= old(self).digests());
        slot
    }

    /// Give `key` the value `value`, replacing any earlier one.
    pub fn insert(&mut self, key: K, value: V)
        requires
            old(self).wf(),
        ensures
            final(self).wf(),
            final(self).entries() == put(old(self).entries(), key@, value@),
            final(self)@ == old(self)@.insert(key@, value@),
    {
        proof {
            lemma_put(self.entries(), key@, value@);
        }
        match self.find(key.probe()) {
            Some(i) => {
                let _ = self.replace(i, value);
            },
            None => {
                let ghost before = self.entries();
                let ghost added = (key@, value@);
                let ghost digests = self.digests();
                let d = K::digest(key.probe());
                assert(!self.index.lists(d, self.rows.len()));
                self.index.note(d, self.rows.len());
                self.rows.push((key, value));
                assert(self.entries() =~= before.push(added));
                assert(self.digests() =~= digests.push(d));
            },
        }
    }

    /// Build the index anew.
    fn reindex(&mut self)
        ensures
            final(self).rows == old(self).rows,
            final(self).indexed(),
    {
        let mut index = Index::new();
        let mut i: usize = 0;
        assert(self.digests().take(0) =~= Seq::<u64>::empty());
        while i < self.rows.len()
            invariant
                i <= self.rows.len(),
                index.covers(self.digests().take(i as int)),
            decreases self.rows.len() - i,
        {
            let d = K::digest(self.rows[i].0.probe());
            assert(!index.lists(d, i));
            index.note(d, i);
            assert(index.covers(self.digests().take(i + 1)));
            i = i + 1;
        }
        assert(self.digests().take(i as int) =~= self.digests());
        self.index = index;
        assert(self.digests() =~= old(self).digests());
    }

    /// Take out the entry of the probe, if it has one.
    pub fn remove(&mut self, probe: &K::Probe)
        requires
            old(self).wf(),
        ensures
            final(self).wf(),
            final(self).entries() == without(old(self).entries(), probe@),
            final(self)@ == old(self)@.remove(probe@),
    {
        let ghost before = self.entries();
        proof {
            lemma_without(before, probe@);
        }
        match self.find(probe) {
            Some(i) => {
                let ghost digests = self.digests();
                let last: usize = self.rows.len() - 1;
                let d = K::digest(self.rows[i].0.probe());
                let moved = K::digest(self.rows[last].0.probe());
                self.index.strike(d, i);
                if i != last {
                    self.index.strike(moved, last);
                    self.index.note(moved, i);
                }
                let _ = self.rows.swap_remove(i);
                proof {
                    let after = digests.update(i as int, moved).drop_last();
                    assert(self.digests() =~= after);
                    assert(self.entries() =~= before.update(i as int, before.last()).drop_last());
                    assert(self.index.covers(after));
                }
            },
            None => {},
        }
    }
}

impl<K: Key, V: Duplicate> Duplicate for Table<K, V> {
    fn duplicate(&self) -> (copy: Self)
        ensures
            copy.entries() == self.entries(),
            copy.indexed(),
    {
        let mut copy: Self = Table { rows: Vec::new(), index: Index::new() };
        let mut i: usize = 0;
        while i < self.rows.len()
            invariant
                i <= self.rows.len(),
                copy.rows.len() == i,
                forall|j: int|
                    0 <= j < i ==> #[trigger] copy.rows@[j].0@ == self.rows@[j].0@
                        && copy.rows@[j].1@ == self.rows@[j].1@,
            decreases self.rows.len() - i,
        {
            let key = self.rows[i].0.copy();
            let value = self.rows[i].1.duplicate();
            copy.rows.push((key, value));
            i = i + 1;
        }
        copy.reindex();
        assert(copy.entries() =~= self.entries());
        copy
    }
}

} // verus!
