//! Posting lists: for each key, the set of entities filed under it, held in
//! compressed bitmaps of entity indexes.
use vstd::prelude::*;

use std::collections::HashMap;
use std::marker::PhantomData;

use roaring::RoaringBitmap;

use crate::ids::{EntityID, RegistryID};
use crate::storage::database::ArchivedPostingList;

verus! {

broadcast use vstd::std_specs::hash::group_hash_axioms;

#[verifier::external_type_specification]
#[verifier::external_body]
pub struct ExRoaringBitmap(roaring::RoaringBitmap);

/// The values a bitmap holds.
pub uninterp spec fn bitmap_values(b: RoaringBitmap) -> Set<u32>;

/// `RoaringBitmap::new`: a bitmap that holds nothing.
#[verifier::external_body]
fn bitmap_new() -> (b: RoaringBitmap)
    ensures
        bitmap_values(b) == Set::<u32>::empty(),
{
    RoaringBitmap::new()
}

/// `RoaringBitmap::insert`: adds a value to the set, and returns whether it
/// was absent.
#[verifier::external_body]
fn bitmap_insert(b: &mut RoaringBitmap, value: u32) -> (r: bool)
    ensures
        bitmap_values(*final(b)) == bitmap_values(*old(b)).insert(value),
        r == !bitmap_values(*old(b)).contains(value),
{
    b.insert(value)
}

/// `RoaringBitmap::iter`, collected: every value of the set once, ordered by value.
#[verifier::external_body]
fn bitmap_sorted_values(b: &RoaringBitmap) -> (r: Vec<u32>)
    ensures
        r@.to_set() == bitmap_values(*b),
        forall|i: int, j: int| 0 <= i < j < r@.len() ==> r@[i] < r@[j],
{
    b.iter().collect()
}

/// `FromIterator<u32>` for `RoaringBitmap`: the set of the given values.
#[verifier::external_body]
fn bitmap_from_values(values: Vec<u32>) -> (b: RoaringBitmap)
    ensures
        bitmap_values(b) == values@.to_set(),
{
    values.into_iter().collect()
}

/// The map key that an identifier is filed under.
pub open spec fn key_of<K: RegistryID>(k: K) -> usize {
    k.slot() as usize
}

/// The entity indexes filed under `key`, none where the key is absent.
pub open spec fn values_at(m: Map<usize, Set<u32>>, key: usize) -> Set<u32> {
    if m.contains_key(key) {
        m[key]
    } else {
        Set::empty()
    }
}

/// `m` with `value` filed under `key`.
pub open spec fn filed(m: Map<usize, Set<u32>>, key: usize, value: u32) -> Map<usize, Set<u32>> {
    m.insert(key, values_at(m, key).insert(value))
}

/// What the entries of a record hold: each key with the set of its values; a
/// later entry for the same key replaces an earlier one.
pub open spec fn record_contents<K: RegistryID>(entries: Seq<(K, Vec<u32>)>) -> Map<usize, Set<u32>>
    decreases entries.len(),
{
    if entries.len() == 0 {
        Map::empty()
    } else {
        record_contents(entries.drop_last()).insert(
            key_of(entries.last().0),
            entries.last().1@.to_set(),
        )
    }
}

/// `entries` lists the contents `m`: each key once, with its values in
/// ascending order.
pub open spec fn lists<K: RegistryID>(entries: Seq<(K, Vec<u32>)>, m: Map<usize, Set<u32>>) -> bool {
    &&& forall|i: int, j: int|
        0 <= i < j < entries.len() ==> key_of((#[trigger] entries[i]).0) != key_of((#[trigger] entries[j]).0)
    &&& forall|k: usize| #[trigger] m.contains_key(k) <==> exists|i: int|
        0 <= i < entries.len() && key_of((#[trigger] entries[i]).0) == k
    &&& forall|i: int|
        0 <= i < entries.len() ==> m.contains_key(key_of((#[trigger] entries[i]).0))
            && entries[i].1@.to_set() == m[key_of(entries[i].0)]
    &&& forall|i: int, a: int, b: int|
        #![trigger entries[i].1@[a], entries[i].1@[b]]
        0 <= i < entries.len() && 0 <= a < b < entries[i].1@.len() ==> entries[i].1@[a]
            < entries[i].1@[b]
}

/// A posting list: for each key, the entities filed under it.
#[derive(Debug)]
pub struct PostingList<K> {
    pub index: HashMap<usize, RoaringBitmap>,
    pub key: PhantomData<K>,
}

/// A posting list in a form that can be stored: each key with the indexes of
/// its entities.
#[derive(Debug, Clone)]
pub struct PostingListRecord<K> {
    pub index: Vec<(K, Vec<u32>)>,
}

impl<K> Default for PostingListRecord<K> {
    fn default() -> (r: Self)
        ensures
            r.index@.len() == 0,
    {
        PostingListRecord { index: Vec::new() }
    }
}

impl<K: RegistryID> PostingList<K> {
    /// For each key slot, the indexes of the entities filed under it.
    pub closed spec fn contents(self) -> Map<usize, Set<u32>> {
        Map::new(
            |k: usize| self.index@.contains_key(k),
            |k: usize| bitmap_values(self.index@[k]),
        )
    }

    /// An empty posting list.
    pub fn new() -> (r: Self)
        ensures
            r.contents() == Map::<usize, Set<u32>>::empty(),
    {
        let r = PostingList { index: HashMap::new(), key: PhantomData };
        assert(r.contents() =~= Map::<usize, Set<u32>>::empty());
        r
    }

    /// Files `entity` under `key`. Entity indexes must fit the bitmaps' 32 bits.
    pub fn insert(&mut self, key: K, entity: EntityID)
        requires
            entity.index <= u32::MAX,
        ensures
            final(self).contents() == filed(old(self).contents(), key_of(key), entity.index as u32),
    {
        let k = key.index();
        let value = entity.index() as u32;
        let mut bitmap = match self.index.remove(&k) {
            Some(b) => b,
            None => bitmap_new(),
        };
        bitmap_insert(&mut bitmap, value);
        self.index.insert(k, bitmap);
        assert(self.contents() =~= filed(old(self).contents(), k, value));
    }

    /// The entities filed under `key`, each once, in ascending order of index.
    pub fn lookup(&self, key: K) -> (r: Vec<EntityID>)
        ensures
            forall|i: int, j: int| 0 <= i < j < r@.len() ==> r@[i].index < r@[j].index,
            forall|e: EntityID|
                r@.contains(e) <==> (e.index <= u32::MAX && values_at(
                    self.contents(),
                    key_of(key),
                ).contains(e.index as u32)),
    {
        let k = key.index();
        let values = match self.index.get(&k) {
            Some(b) => bitmap_sorted_values(b),
            None => Vec::new(),
        };
        proof {
            if !self.index@.contains_key(k) {
                assert(values@.to_set() =~= Set::<u32>::empty());
            }
            assert(values@.to_set() == values_at(self.contents(), k));
        }
        let mut out: Vec<EntityID> = Vec::new();
        let mut i: usize = 0;
        while i < values.len()
            invariant
                i <= values@.len(),
                out@.len() == i,
                forall|m: int| 0 <= m < i ==> (#[trigger] out@[m]).index == values@[m] as usize,
            decreases values.len() - i,
        {
            out.push(EntityID::new(values[i] as usize));
            i += 1;
        }
        proof {
            assert forall|e: EntityID|
                out@.contains(e) <==> (e.index <= u32::MAX && values_at(self.contents(), k).contains(
                    e.index as u32,
                )) by {
                if out@.contains(e) {
                    let m = choose|m: int| 0 <= m < out@.len() && out@[m] == e;
                    assert(values@.to_set().contains(values@[m]));
                }
                if e.index <= u32::MAX && values_at(self.contents(), k).contains(e.index as u32) {
                    assert(values@.to_set().contains(e.index as u32));
                    let m = choose|m: int| 0 <= m < values@.len() && values@[m] == e.index as u32;
                    assert(out@[m].index == e.index);
                    assert(out@[m] == e);
                }
            }
        }
        out
    }

    /// The record of this posting list: each key once, with its entity
    /// indexes in ascending order.
    pub fn to_record(&self) -> (r: PostingListRecord<K>)
        ensures
            lists(r.index@, self.contents()),
    {
        let keys = self.keys();
        let mut index: Vec<(K, Vec<u32>)> = Vec::new();
        let mut i: usize = 0;
        while i < keys.len()
            invariant
                i <= keys@.len(),
                keys@.to_set() == self.index@.dom(),
                keys@.no_duplicates(),
                index@.len() == i,
                forall|m: int| 0 <= m < i ==> key_of((#[trigger] index@[m]).0) == keys@[m],
                forall|m: int|
                    0 <= m < i ==> (#[trigger] index@[m]).1@.to_set() == bitmap_values(
                        self.index@[keys@[m]],
                    ),
                forall|m: int, a: int, b: int|
                    #![trigger index@[m].1@[a], index@[m].1@[b]]
                    0 <= m < i && 0 <= a < b < index@[m].1@.len() ==> index@[m].1@[a]
                        < index@[m].1@[b],
            decreases keys.len() - i,
        {
            let k = keys[i];
            assert(keys@.to_set().contains(k));
            let values = match self.index.get(&k) {
                Some(b) => bitmap_sorted_values(b),
                None => Vec::new(),
            };
            index.push((K::new(k), values));
            i += 1;
        }
        proof {
            let entries = index@;
            let m = self.contents();
            assert forall|a: int, b: int| 0 <= a < b < entries.len() implies key_of((#[trigger] entries[a]).0)
                != key_of((#[trigger] entries[b]).0) by {
                assert(keys@[a] != keys@[b]);
            }
            assert forall|k: usize| #[trigger] m.contains_key(k) <==> exists|i: int|
                0 <= i < entries.len() && key_of((#[trigger] entries[i]).0) == k by {
                if m.contains_key(k) {
                    assert(keys@.to_set().contains(k));
                    let w = choose|w: int| 0 <= w < keys@.len() && keys@[w] == k;
                    assert(key_of(entries[w].0) == k);
                }
                if exists|i: int| 0 <= i < entries.len() && key_of((#[trigger] entries[i]).0) == k {
                    let w = choose|w: int| 0 <= w < entries.len() && key_of((#[trigger] entries[w]).0) == k;
                    assert(keys@.to_set().contains(keys@[w]));
                }
            }
            assert forall|i: int| 0 <= i < entries.len() implies m.contains_key(
                key_of((#[trigger] entries[i]).0),
            ) && entries[i].1@.to_set() == m[key_of(entries[i].0)] by {
                assert(keys@.to_set().contains(keys@[i]));
            }
        }
        PostingListRecord { index }
    }

    /// A posting list holding what `record` lists; where a key occurs twice,
    /// the later entry wins.
    pub fn from_record(record: PostingListRecord<K>) -> (r: Self)
        ensures
            r.contents() == record_contents(record.index@),
    {
        let ghost entries = record.index@;
        let mut rest = record.index;
        let mut index: HashMap<usize, RoaringBitmap> = HashMap::new();
        let n = rest.len();
        let mut i: usize = 0;
        while i < n
            invariant
                n == entries.len(),
                i <= n,
                rest@ == entries.skip(i as int),
                Map::new(|k: usize| index@.contains_key(k), |k: usize| bitmap_values(index@[k]))
                    == record_contents(entries.take(i as int)),
            decreases n - i,
        {
            let (key, values) = rest.remove(0);
            assert(entries.skip(i as int)[0] == entries[i as int]);
            assert(rest@ =~= entries.skip(i + 1));
            let ghost before = index@;
            let bitmap = bitmap_from_values(values);
            index.insert(key.index(), bitmap);
            proof {
                assert(entries.take(i + 1).drop_last() =~= entries.take(i as int));
                assert(Map::new(|k: usize| index@.contains_key(k), |k: usize| bitmap_values(index@[k]))
                    =~= record_contents(entries.take(i + 1)));
            }
            i += 1;
        }
        assert(entries.take(n as int) =~= entries);
        let r = PostingList { index, key: PhantomData };
        assert(r.contents() =~= record_contents(entries));
        r
    }

    /// The archived form: the keys, and beside each key its entities in
    /// ascending order of index.
    pub fn to_archived(&self) -> (r: ArchivedPostingList<K>)
        ensures
            r.keys@.len() == r.values@.len(),
            archives(r.keys@, r.values@, self.contents()),
    {
        let record = self.to_record();
        let mut keys: Vec<K> = Vec::new();
        let mut values: Vec<Vec<EntityID>> = Vec::new();
        let mut i: usize = 0;
        while i < record.index.len()
            invariant
                i <= record.index@.len(),
                keys@.len() == i,
                values@.len() == i,
                forall|m: int| 0 <= m < i ==> (#[trigger] keys@[m]) == record.index@[m].0,
                forall|m: int|
                    0 <= m < i ==> (#[trigger] values@[m])@.len() == record.index@[m].1@.len(),
                forall|m: int, a: int|
                    #![trigger values@[m]@[a]]
                    0 <= m < i && 0 <= a < values@[m]@.len() ==> values@[m]@[a].index
                        == record.index@[m].1@[a] as usize,
            decreases record.index.len() - i,
        {
            keys.push(record.index[i].0);
            let src = &record.index[i].1;
            let mut ids: Vec<EntityID> = Vec::new();
            let mut j: usize = 0;
            while j < src.len()
                invariant
                    j <= src@.len(),
                    ids@.len() == j,
                    forall|a: int| 0 <= a < j ==> (#[trigger] ids@[a]).index == src@[a] as usize,
                decreases src.len() - j,
            {
                ids.push(EntityID::new(src[j] as usize));
                j += 1;
            }
            values.push(ids);
            i += 1;
        }
        proof {
            lemma_archives(record.index@, keys@, values@, self.contents());
        }
        ArchivedPostingList { keys, values }
    }

    /// The archived form; the same as `to_archived`.
    pub fn archive(&self) -> (r: ArchivedPostingList<K>)
        ensures
            r.keys@.len() == r.values@.len(),
            archives(r.keys@, r.values@, self.contents()),
    {
        self.to_archived()
    }

    /// The keys of the map, each once.
    fn keys(&self) -> (r: Vec<usize>)
        ensures
            r@.to_set() == self.index@.dom(),
            r@.no_duplicates(),
    {
        let mut out: Vec<usize> = Vec::new();
        for k in it: self.index.keys()
            invariant
                out@ =~= it.seq().unref().take(it.index() as int),
                it.seq().unref().to_set() == self.index@.dom(),
                it.seq().unref().no_duplicates(),
                it.index() == it.seq().len() ==> out@ =~= it.seq().unref(),
        {
            out.push(*k);
        }
        out
    }
}

impl<K: RegistryID> Default for PostingList<K> {
    fn default() -> (r: Self)
        ensures
            r.contents() == Map::<usize, Set<u32>>::empty(),
    {
        PostingList::new()
    }
}

/// `keys` and `values` archive the contents `m`: each key once, beside it
/// its entities in ascending order of index.
pub open spec fn archives<K: RegistryID>(keys: Seq<K>, values: Seq<Vec<EntityID>>, m: Map<usize, Set<u32>>) -> bool {
    &&& forall|i: int, j: int| 0 <= i < j < keys.len() ==> key_of((#[trigger] keys[i])) != key_of((#[trigger] keys[j]))
    &&& forall|k: usize| #[trigger] m.contains_key(k) <==> exists|i: int| 0 <= i < keys.len() && key_of((#[trigger] keys[i])) == k
    &&& forall|i: int, e: EntityID|
        0 <= i < keys.len() ==> (#[trigger] values[i]@.contains(e) <==> (e.index <= u32::MAX
            && m[key_of(keys[i])].contains(e.index as u32)))
    &&& forall|i: int, a: int, b: int|
        #![trigger values[i]@[a], values[i]@[b]]
        0 <= i < keys.len() && 0 <= a < b < values[i]@.len() ==> values[i]@[a].index
            < values[i]@[b].index
}

proof fn lemma_archives<K: RegistryID>(
    entries: Seq<(K, Vec<u32>)>,
    keys: Seq<K>,
    values: Seq<Vec<EntityID>>,
    m: Map<usize, Set<u32>>,
)
    requires
        lists(entries, m),
        keys.len() == entries.len(),
        values.len() == entries.len(),
        forall|i: int| 0 <= i < keys.len() ==> (#[trigger] keys[i]) == entries[i].0,
        forall|i: int| 0 <= i < keys.len() ==> (#[trigger] values[i])@.len() == entries[i].1@.len(),
        forall|i: int, a: int|
            #![trigger values[i]@[a]]
            0 <= i < keys.len() && 0 <= a < values[i]@.len() ==> values[i]@[a].index
                == entries[i].1@[a] as usize,
    ensures
        archives(keys, values, m),
{
    assert forall|i: int, j: int| 0 <= i < j < keys.len() implies key_of((#[trigger] keys[i])) != key_of((#[trigger] keys[j])) by {
        assert(key_of(entries[i].0) != key_of(entries[j].0));
    }
    assert forall|k: usize| #[trigger] m.contains_key(k) <==> exists|i: int| 0 <= i < keys.len() && key_of((#[trigger] keys[i])) == k by {
        if m.contains_key(k) {
            let w = choose|w: int| 0 <= w < entries.len() && key_of((#[trigger] entries[w]).0) == k;
            assert(key_of(keys[w]) == k);
        }
        if exists|i: int| 0 <= i < keys.len() && key_of((#[trigger] keys[i])) == k {
            let w = choose|w: int| 0 <= w < keys.len() && key_of((#[trigger] keys[w])) == k;
            assert(key_of(entries[w].0) == k);
        }
    }
    assert forall|i: int, e: EntityID| 0 <= i < keys.len() implies (#[trigger] values[i]@.contains(e) <==> (e.index <= u32::MAX
        && m[key_of(keys[i])].contains(e.index as u32))) by {
        let vs = entries[i].1@;
        assert(vs.to_set() == m[key_of(entries[i].0)]);
        if values[i]@.contains(e) {
            let a = choose|a: int| 0 <= a < values[i]@.len() && values[i]@[a] == e;
            assert(vs.to_set().contains(vs[a]));
        }
        if e.index <= u32::MAX && m[key_of(keys[i])].contains(e.index as u32) {
            assert(vs.to_set().contains(e.index as u32));
            let a = choose|a: int| 0 <= a < vs.len() && vs[a] == e.index as u32;
            assert(values[i]@[a].index == e.index);
            assert(values[i]@[a] == e);
        }
    }
}

/// Storing a posting list and loading it back gives the same posting list:
/// the contents of a list that `to_record` makes are what `from_record`
/// reads from it.
pub proof fn lemma_record_roundtrip<K: RegistryID>(entries: Seq<(K, Vec<u32>)>, m: Map<usize, Set<u32>>)
    requires
        lists(entries, m),
    ensures
        record_contents(entries) == m,
    decreases entries.len(),
{
    lemma_record_contents_of_distinct(entries);
    assert forall|k: usize| #[trigger] record_contents(entries).contains_key(k) <==> m.contains_key(k) by {}
    assert forall|k: usize| m.contains_key(k) implies #[trigger] record_contents(entries)[k] == m[k] by {
        let w = choose|w: int| 0 <= w < entries.len() && key_of((#[trigger] entries[w]).0) == k;
        assert(entries[w].1@.to_set() == m[key_of(entries[w].0)]);
    }
    assert(record_contents(entries) =~= m);
}

/// With distinct keys, each entry's key holds that entry's values.
proof fn lemma_record_contents_of_distinct<K: RegistryID>(entries: Seq<(K, Vec<u32>)>)
    requires
        forall|i: int, j: int|
            0 <= i < j < entries.len() ==> key_of((#[trigger] entries[i]).0) != key_of((#[trigger] entries[j]).0),
    ensures
        forall|k: usize| #[trigger] record_contents(entries).contains_key(k) <==> exists|i: int|
            0 <= i < entries.len() && key_of((#[trigger] entries[i]).0) == k,
        forall|i: int|
            0 <= i < entries.len() ==> #[trigger] record_contents(entries)[key_of(entries[i].0)]
                == entries[i].1@.to_set(),
    decreases entries.len(),
{
    if entries.len() > 0 {
        let init = entries.drop_last();
        let last = entries.last();
        let n = entries.len() - 1;
        assert forall|i: int, j: int| 0 <= i < j < init.len() implies key_of((#[trigger] init[i]).0) != key_of(
            (#[trigger] init[j]).0,
        ) by {
            assert(init[i] == entries[i] && init[j] == entries[j]);
        }
        lemma_record_contents_of_distinct(init);
        let rc = record_contents(entries);
        let ri = record_contents(init);
        assert(rc == ri.insert(key_of(last.0), last.1@.to_set()));
        assert forall|k: usize| #[trigger] rc.contains_key(k) <==> exists|i: int|
            0 <= i < entries.len() && key_of((#[trigger] entries[i]).0) == k by {
            if k == key_of(last.0) {
                assert(key_of(entries[n].0) == k);
            } else {
                if ri.contains_key(k) {
                    let w = choose|w: int| 0 <= w < init.len() && key_of((#[trigger] init[w]).0) == k;
                    assert(entries[w] == init[w]);
                }
                if exists|i: int| 0 <= i < entries.len() && key_of((#[trigger] entries[i]).0) == k {
                    let w = choose|w: int| 0 <= w < entries.len() && key_of((#[trigger] entries[w]).0) == k;
                    assert(w < n);
                    assert(init[w] == entries[w]);
                    assert(ri.contains_key(k));
                }
            }
        }
        assert forall|i: int| 0 <= i < entries.len() implies #[trigger] rc[key_of(entries[i].0)]
            == entries[i].1@.to_set() by {
            if i < n {
                assert(init[i] == entries[i]);
                assert(key_of(entries[i].0) != key_of(entries[n].0));
                assert(ri[key_of(init[i].0)] == init[i].1@.to_set());
            }
        }
    }
}

} // verus!
