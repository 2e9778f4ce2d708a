//! A registry of interned names: each normalised name gets a stable slot
//! index; removed slots are recycled, most recently freed first.
use vstd::prelude::*;

use crate::ids::RegistryID;
use crate::text::{normalize, spec_normalize, str_eq};

verus! {

pub open spec fn opt_view(o: Option<String>) -> Option<Seq<char>> {
    match o {
        Some(s) => Some(s@),
        None => None,
    }
}

pub open spec fn slots_of(values: Seq<Option<String>>) -> Seq<Option<Seq<char>>> {
    values.map_values(|o: Option<String>| opt_view(o))
}

/// The name-to-slot map that an association list stands for (later entries win).
pub open spec fn assoc_map<ID: RegistryID>(l: Seq<(String, ID)>) -> Map<Seq<char>, nat>
    decreases l.len(),
{
    if l.len() == 0 {
        Map::empty()
    } else {
        assoc_map(l.drop_last()).insert(l.last().0@, l.last().1.slot())
    }
}

pub open spec fn keys_distinct<ID>(l: Seq<(String, ID)>) -> bool {
    forall|i: int, j: int|
        0 <= i < l.len() && 0 <= j < l.len() && i != j ==> #[trigger] l[i].0@ != #[trigger] l[j].0@
}

/// The lookup map rebuilt from a slot table: each name maps to the last slot holding it.
pub open spec fn lookup_of_slots(s: Seq<Option<Seq<char>>>) -> Map<Seq<char>, nat>
    decreases s.len(),
{
    if s.len() == 0 {
        Map::empty()
    } else {
        let m = lookup_of_slots(s.drop_last());
        match s.last() {
            Some(v) => m.insert(v, (s.len() - 1) as nat),
            None => m,
        }
    }
}

/// The free list rebuilt from a slot table: the empty slots in ascending order.
pub open spec fn free_of_slots(s: Seq<Option<Seq<char>>>) -> Seq<nat>
    decreases s.len(),
{
    if s.len() == 0 {
        seq![]
    } else {
        let f = free_of_slots(s.drop_last());
        match s.last() {
            Some(_) => f,
            None => f.push((s.len() - 1) as nat),
        }
    }
}

/// The number of occupied slots.
pub open spec fn active_count(s: Seq<Option<Seq<char>>>) -> nat
    decreases s.len(),
{
    if s.len() == 0 {
        0
    } else {
        active_count(s.drop_last()) + if s.last() is Some {
            1nat
        } else {
            0nat
        }
    }
}

/// The occupied slots with their indices, in slot order.
pub open spec fn active_entries(s: Seq<Option<Seq<char>>>) -> Seq<(nat, Seq<char>)>
    decreases s.len(),
{
    if s.len() == 0 {
        seq![]
    } else {
        let e = active_entries(s.drop_last());
        match s.last() {
            Some(v) => e.push(((s.len() - 1) as nat, v)),
            None => e,
        }
    }
}

/// The names in the occupied slots, in slot order.
pub open spec fn active_values(s: Seq<Option<Seq<char>>>) -> Seq<Seq<char>> {
    active_entries(s).map_values(|e: (nat, Seq<char>)| e.1)
}

/// A registry of names, each identified by the index of its slot.
#[derive(Debug, Clone)]
pub struct Registry<ID: RegistryID> {
    values: Vec<Option<String>>,
    lookup: Vec<(String, ID)>,
    free_list: Vec<ID>,
}

/// The slots of a registry, as stored.
#[derive(Debug, Clone)]
pub struct RegistryRecord {
    pub values: Vec<Option<String>>,
}

impl RegistryRecord {
    pub open spec fn slots(&self) -> Seq<Option<Seq<char>>> {
        slots_of(self.values@)
    }
}

proof fn lemma_assoc_map<ID: RegistryID>(l: Seq<(String, ID)>)
    requires
        keys_distinct(l),
    ensures
        forall|k: Seq<char>|
            #[trigger] assoc_map(l).contains_key(k) <==> exists|j: int|
                0 <= j < l.len() && (#[trigger] l[j]).0@ == k,
        forall|j: int| 0 <= j < l.len() ==> assoc_map(l)[(#[trigger] l[j]).0@] == l[j].1.slot(),
    decreases l.len(),
{
    if l.len() > 0 {
        let p = l.drop_last();
        assert(keys_distinct(p)) by {
            assert forall|i: int, j: int|
                0 <= i < p.len() && 0 <= j < p.len() && i != j implies #[trigger] p[i].0@
                != #[trigger] p[j].0@ by {
                assert(p[i] == l[i] && p[j] == l[j]);
            }
        }
        lemma_assoc_map(p);
        assert forall|k: Seq<char>| #[trigger] assoc_map(l).contains_key(k) implies exists|j: int|
            0 <= j < l.len() && (#[trigger] l[j]).0@ == k by {
            if k != l.last().0@ {
                assert(assoc_map(p).contains_key(k));
                let j = choose|j: int| 0 <= j < p.len() && (#[trigger] p[j]).0@ == k;
                assert(l[j] == p[j]);
            } else {
                assert(l[l.len() - 1].0@ == k);
            }
        }
        assert forall|j: int| 0 <= j < l.len() ==> assoc_map(l)[(#[trigger] l[j]).0@]
            == l[j].1.slot() by {
            if 0 <= j < l.len() - 1 {
                assert(p[j] == l[j]);
                assert(l[j].0@ != l[l.len() - 1].0@);
            }
        }
        assert forall|k: Seq<char>|
            (exists|j: int| 0 <= j < l.len() && (#[trigger] l[j]).0@ == k) implies #[trigger] assoc_map(
            l,
        ).contains_key(k) by {
            let j = choose|j: int| 0 <= j < l.len() && (#[trigger] l[j]).0@ == k;
            if j < l.len() - 1 {
                assert(p[j] == l[j]);
            }
        }
    }
}

proof fn lemma_assoc_remove<ID: RegistryID>(l: Seq<(String, ID)>, j: int)
    requires
        keys_distinct(l),
        0 <= j < l.len(),
    ensures
        keys_distinct(l.remove(j)),
        assoc_map(l.remove(j)) == assoc_map(l).remove(l[j].0@),
{
    let r = l.remove(j);
    assert(keys_distinct(r)) by {
        assert forall|a: int, b: int|
            0 <= a < r.len() && 0 <= b < r.len() && a != b implies #[trigger] r[a].0@
            != #[trigger] r[b].0@ by {
            let a2 = if a < j {
                a
            } else {
                a + 1
            };
            let b2 = if b < j {
                b
            } else {
                b + 1
            };
            assert(r[a] == l[a2] && r[b] == l[b2]);
        }
    }
    lemma_assoc_map(l);
    lemma_assoc_map(r);
    let k0 = l[j].0@;
    assert forall|k: Seq<char>| #[trigger]
        assoc_map(r).contains_key(k) == assoc_map(l).remove(k0).contains_key(k) by {
        if assoc_map(r).contains_key(k) {
            let a = choose|a: int| 0 <= a < r.len() && (#[trigger] r[a]).0@ == k;
            let a2 = if a < j {
                a
            } else {
                a + 1
            };
            assert(r[a] == l[a2]);
        }
        if assoc_map(l).remove(k0).contains_key(k) {
            let a = choose|a: int| 0 <= a < l.len() && (#[trigger] l[a]).0@ == k;
            assert(a != j);
            let a2 = if a < j {
                a
            } else {
                a - 1
            };
            assert(r[a2] == l[a]);
        }
    }
    assert forall|k: Seq<char>| #[trigger] assoc_map(r).contains_key(k) implies assoc_map(r)[k]
        == assoc_map(l)[k] by {
        let a = choose|a: int| 0 <= a < r.len() && (#[trigger] r[a]).0@ == k;
        let a2 = if a < j {
            a
        } else {
            a + 1
        };
        assert(r[a] == l[a2]);
    }
    assert(assoc_map(r) =~= assoc_map(l).remove(k0));
}

proof fn lemma_assoc_update<ID: RegistryID>(l: Seq<(String, ID)>, j: int, e: (String, ID))
    requires
        keys_distinct(l),
        0 <= j < l.len(),
        e.0@ == l[j].0@,
    ensures
        keys_distinct(l.update(j, e)),
        assoc_map(l.update(j, e)) == assoc_map(l).insert(e.0@, e.1.slot()),
{
    let u = l.update(j, e);
    assert(keys_distinct(u)) by {
        assert forall|a: int, b: int|
            0 <= a < u.len() && 0 <= b < u.len() && a != b implies #[trigger] u[a].0@
            != #[trigger] u[b].0@ by {
            assert(u[a].0@ == l[a].0@ && u[b].0@ == l[b].0@);
        }
    }
    lemma_assoc_map(l);
    lemma_assoc_map(u);
    assert forall|k: Seq<char>| #[trigger]
        assoc_map(u).contains_key(k) == assoc_map(l).insert(e.0@, e.1.slot()).contains_key(k) by {
        if assoc_map(u).contains_key(k) {
            let a = choose|a: int| 0 <= a < u.len() && (#[trigger] u[a]).0@ == k;
            assert(u[a].0@ == l[a].0@);
        }
        if assoc_map(l).contains_key(k) {
            let a = choose|a: int| 0 <= a < l.len() && (#[trigger] l[a]).0@ == k;
            assert(u[a].0@ == l[a].0@);
        }
        if k == e.0@ {
            assert(u[j].0@ == k);
        }
    }
    assert forall|k: Seq<char>| #[trigger] assoc_map(u).contains_key(k) implies assoc_map(u)[k]
        == assoc_map(l).insert(e.0@, e.1.slot())[k] by {
        let a = choose|a: int| 0 <= a < u.len() && (#[trigger] u[a]).0@ == k;
        if a != j {
            assert(u[a] == l[a]);
        }
    }
    assert(assoc_map(u) =~= assoc_map(l).insert(e.0@, e.1.slot()));
}

/// The position of `value` among the keys of an association list.
fn assoc_find<ID: RegistryID>(l: &Vec<(String, ID)>, value: &str) -> (r: Option<usize>)
    requires
        keys_distinct(l@),
    ensures
        match r {
            Some(j) => j < l@.len() && l@[j as int].0@ == value@ && assoc_map(l@).contains_key(
                value@,
            ) && assoc_map(l@)[value@] == l@[j as int].1.slot(),
            None => !assoc_map(l@).contains_key(value@),
        },
{
    proof {
        lemma_assoc_map(l@);
    }
    let mut j: usize = 0;
    while j < l.len()
        invariant
            j <= l@.len(),
            keys_distinct(l@),
            forall|i: int| 0 <= i < j ==> (#[trigger] l@[i]).0@ != value@,
        decreases l.len() - j,
    {
        if str_eq(l[j].0.as_str(), value) {
            proof {
                lemma_assoc_map(l@);
            }
            assert(l@[j as int].0@ == value@);
            assert(assoc_map(l@).contains_key(value@));
            return Some(j);
        }
        j += 1;
    }
    proof {
        lemma_assoc_map(l@);
    }
    None
}

impl<ID: RegistryID> Registry<ID> {
    /// The slot table: each slot empty or holding a name.
    pub closed spec fn slots(&self) -> Seq<Option<Seq<char>>> {
        slots_of(self.values@)
    }

    /// The lookup map from names to slot indices.
    pub closed spec fn lookup(&self) -> Map<Seq<char>, nat> {
        assoc_map(self.lookup@)
    }

    /// The free list of slot indices; the last one is reused first.
    pub closed spec fn free(&self) -> Seq<nat> {
        self.free_list@.map_values(|id: ID| id.slot())
    }

    /// Every lookup entry names an occupied slot holding that name; every
    /// free slot is empty and listed once.
    pub closed spec fn wf(&self) -> bool {
        &&& keys_distinct(self.lookup@)
        &&& forall|j: int|
            0 <= j < self.lookup@.len() ==> {
                let e = #[trigger] self.lookup@[j];
                &&& e.1.slot() < self.values@.len()
                &&& self.slots()[e.1.slot() as int] == Some(e.0@)
            }
        &&& forall|j: int|
            0 <= j < self.free_list@.len() ==> {
                let s = (#[trigger] self.free_list@[j]).slot();
                &&& s < self.values@.len()
                &&& self.slots()[s as int] is None
            }
        &&& self.free().no_duplicates()
    }

    /// Well formed, every name found sits in the slot it is found in, every
    /// occupied slot is found by its name, and the free list holds exactly the
    /// empty slots: what `default`, `intern` and `remove` keep.
    pub open spec fn canonical(&self) -> bool {
        &&& self.wf()
        &&& forall|k: Seq<char>| #[trigger]
            self.lookup().contains_key(k) ==> self.lookup()[k] < self.slots().len() && self.slots()[self.lookup()[k] as int]
                == Some(k)
        &&& forall|n: nat| #[trigger]
            self.free().contains(n) ==> n < self.slots().len() && self.slots()[n as int] is None
        &&& forall|i: int|
            0 <= i < self.slots().len() ==> match #[trigger] self.slots()[i] {
                Some(k) => self.lookup().contains_key(k) && self.lookup()[k] == i,
                None => self.free().contains(i as nat),
            }
    }

    /// In every well-formed registry, a name that is found sits in the slot
    /// it is found in, and every free slot is empty.
    pub proof fn lemma_wf_lookup(&self)
        requires
            self.wf(),
        ensures
            forall|k: Seq<char>| #[trigger]
                self.lookup().contains_key(k) ==> self.lookup()[k] < self.slots().len()
                    && self.slots()[self.lookup()[k] as int] == Some(k),
            forall|n: nat| #[trigger]
                self.free().contains(n) ==> n < self.slots().len() && self.slots()[n as int] is None,
    {
        assert forall|n: nat| #[trigger] self.free().contains(n) implies n < self.slots().len()
            && self.slots()[n as int] is None by {
            let j = choose|j: int| 0 <= j < self.free().len() && self.free()[j] == n;
            assert(self.free()[j] == self.free_list@[j].slot());
        }
        lemma_assoc_map(self.lookup@);
        assert forall|k: Seq<char>| #[trigger] self.lookup().contains_key(k) implies self.lookup()[k]
            < self.slots().len() && self.slots()[self.lookup()[k] as int] == Some(k) by {
            let j = choose|j: int| 0 <= j < self.lookup@.len() && (#[trigger] self.lookup@[j]).0@ == k;
            assert(self.lookup@[j].1.slot() < self.values@.len());
        }
    }

    /// The position of `value` in the lookup list.
    fn find(&self, value: &str) -> (r: Option<usize>)
        requires
            self.wf(),
        ensures
            match r {
                Some(j) => j < self.lookup@.len() && self.lookup@[j as int].0@ == value@
                    && self.lookup().contains_key(value@) && self.lookup()[value@]
                    == self.lookup@[j as int].1.slot(),
                None => !self.lookup().contains_key(value@),
            },
    {
        assoc_find(&self.lookup, value)
    }

    /// Interns a name: its normal form keeps the slot it already has, or
    /// takes the most recently freed slot, or a new slot at the end.
    pub fn intern(&mut self, value: &str) -> (id: ID)
        requires
            old(self).wf(),
        ensures
            final(self).wf(),
            old(self).canonical() ==> final(self).canonical(),
            ({
                let v = spec_normalize(value@);
                &&& final(self).lookup().contains_key(v)
                &&& final(self).lookup()[v] == id.slot()
                &&& id.slot() < final(self).slots().len()
                &&& final(self).slots()[id.slot() as int] == Some(v)
                &&& if old(self).lookup().contains_key(v) {
                    &&& id.slot() == old(self).lookup()[v]
                    &&& final(self).slots() == old(self).slots()
                    &&& final(self).lookup() == old(self).lookup()
                    &&& final(self).free() == old(self).free()
                } else if old(self).free().len() > 0 {
                    &&& id.slot() == old(self).free().last()
                    &&& final(self).slots() == old(self).slots().update(id.slot() as int, Some(v))
                    &&& final(self).lookup() == old(self).lookup().insert(v, id.slot())
                    &&& final(self).free() == old(self).free().drop_last()
                } else {
                    &&& id.slot() == old(self).slots().len()
                    &&& final(self).slots() == old(self).slots().push(Some(v))
                    &&& final(self).lookup() == old(self).lookup().insert(v, id.slot())
                    &&& final(self).free() == old(self).free()
                }
            }),
    {
        let value = normalize(value);
        proof {
            self.lemma_wf_lookup();
        }
        if let Some(j) = self.find(value.as_str()) {
            return self.lookup[j].1;
        }
        let ghost old_free = self.free_list@;
        let ghost old_values = self.values@;
        let id = if let Some(id) = self.free_list.pop() {
            proof {
                assert(old_free.last() == id);
                assert(self.free_list@ =~= old_free.drop_last());
            }
            self.values.set(id.index(), Some(value.clone()));
            id
        } else {
            let id = ID::new(self.values.len());
            self.values.push(Some(value.clone()));
            id
        };
        let ghost old_lookup = self.lookup@;
        self.lookup.push((value, id));
        proof {
            assert(self.lookup@.drop_last() =~= old_lookup);
            assert(keys_distinct(self.lookup@)) by {
                lemma_assoc_map(old_lookup);
                assert forall|a: int, b: int|
                    0 <= a < self.lookup@.len() && 0 <= b < self.lookup@.len() && a != b implies #[trigger] self.lookup@[a].0@
                    != #[trigger] self.lookup@[b].0@ by {
                    if a < old_lookup.len() && b < old_lookup.len() {
                        assert(self.lookup@[a] == old_lookup[a]);
                        assert(self.lookup@[b] == old_lookup[b]);
                    } else if a < old_lookup.len() {
                        assert(self.lookup@[a] == old_lookup[a]);
                    } else {
                        assert(self.lookup@[b] == old_lookup[b]);
                    }
                }
            }
            let s = id.slot();
            assert(self.slots() =~= slots_of(old_values).update(s as int, Some(value@))
                || self.slots() =~= slots_of(old_values).push(Some(value@)));
            assert forall|j: int| 0 <= j < self.lookup@.len() implies {
                let e = #[trigger] self.lookup@[j];
                &&& e.1.slot() < self.values@.len()
                &&& self.slots()[e.1.slot() as int] == Some(e.0@)
            } by {
                if j < old_lookup.len() {
                    assert(self.lookup@[j] == old_lookup[j]);
                    if old_free.len() > 0 {
                        assert(old_free[old_free.len() - 1] == id);
                        if old_lookup[j].1.slot() == s {
                            assert(slots_of(old_values)[s as int] is None);
                        }
                    }
                }
            }
            assert forall|j: int| 0 <= j < self.free_list@.len() implies {
                let t = (#[trigger] self.free_list@[j]).slot();
                &&& t < self.values@.len()
                &&& self.slots()[t as int] is None
            } by {
                assert(self.free_list@[j] == old_free[j]);
                if old_free.len() > 0 {
                    assert(old_free[old_free.len() - 1] == id);
                    assert(old_free.map_values(|id: ID| id.slot())[j] != old_free.map_values(
                        |id: ID| id.slot(),
                    )[old_free.len() - 1]);
                }
            }
            assert(self.free() =~= old_free.map_values(|id: ID| id.slot()).take(
                self.free_list@.len() as int,
            ));
            assert(self.free().no_duplicates());
            assert(self.lookup() == old(self).lookup().insert(value@, s));
            if old(self).canonical() {
                assert forall|i: int| 0 <= i < self.slots().len() implies match #[trigger] self.slots()[i] {
                    Some(k) => self.lookup().contains_key(k) && self.lookup()[k] == i,
                    None => self.free().contains(i as nat),
                } by {
                    if i != s {
                        assert(self.slots()[i] == old(self).slots()[i]);
                        match self.slots()[i] {
                            Some(k) => {
                                assert(old(self).lookup().contains_key(k));
                            },
                            None => {
                                assert(old(self).free().contains(i as nat));
                                let w = choose|w: int| 0 <= w < old(self).free().len() && old(self).free()[w] == i as nat;
                                if old_free.len() > 0 {
                                    assert(w != old_free.len() - 1);
                                    assert(self.free()[w] == i as nat);
                                }
                            },
                        }
                    }
                }
            }
        }
        id
    }

    /// Removes the name in a slot and frees the slot; `None` where the slot
    /// is out of range or already empty.
    pub fn remove(&mut self, id: ID) -> (r: Option<String>)
        requires
            old(self).wf(),
        ensures
            final(self).wf(),
            old(self).canonical() ==> final(self).canonical(),
            forall|k: Seq<char>| #[trigger]
                old(self).lookup().contains_key(k) && old(self).lookup()[k] == id.slot() ==> (r matches Some(v)
                    && v@ == k) && !final(self).lookup().contains_key(k),
            match r {
                Some(v) => {
                    &&& id.slot() < old(self).slots().len()
                    &&& old(self).slots()[id.slot() as int] == Some(v@)
                    &&& final(self).slots() == old(self).slots().update(id.slot() as int, None)
                    &&& final(self).lookup() == old(self).lookup().remove(v@)
                    &&& final(self).free() == old(self).free().push(id.slot())
                },
                None => {
                    &&& (id.slot() >= old(self).slots().len() || old(self).slots()[id.slot() as int] is None)
                    &&& final(self).slots() == old(self).slots()
                    &&& final(self).lookup() == old(self).lookup()
                    &&& final(self).free() == old(self).free()
                },
            },
    {
        proof {
            self.lemma_wf_lookup();
        }
        let i = id.index();
        if i >= self.values.len() {
            return None;
        }
        let value = match &self.values[i] {
            Some(v) => v.clone(),
            None => return None,
        };
        let ghost old_values = self.values@;
        let ghost old_lookup = self.lookup@;
        let ghost old_free = self.free_list@;
        proof {
            lemma_assoc_map(old_lookup);
        }
        self.values.set(i, None);
        let found = assoc_find(&self.lookup, value.as_str());
        if let Some(j) = found {
            proof {
                lemma_assoc_remove(old_lookup, j as int);
            }
            self.lookup.remove(j);
        }
        self.free_list.push(id);
        proof {
            assert(self.slots() =~= slots_of(old_values).update(i as int, None));
            assert(self.free() =~= old_free.map_values(|id: ID| id.slot()).push(id.slot()));
            assert(self.lookup() == old(self).lookup().remove(value@));
            assert forall|j: int| 0 <= j < self.lookup@.len() implies {
                let e = #[trigger] self.lookup@[j];
                &&& e.1.slot() < self.values@.len()
                &&& self.slots()[e.1.slot() as int] == Some(e.0@)
            } by {
                let e = self.lookup@[j];
                let j0 = if found is Some && j >= found->0 {
                    j + 1
                } else {
                    j
                };
                assert(e == old_lookup[j0]);
                if e.1.slot() == i {
                    assert(slots_of(old_values)[i as int] == Some(e.0@));
                    assert(e.0@ == value@);
                    assert(old(self).lookup().contains_key(value@));
                    if found is Some {
                        assert(old_lookup[found->0 as int].0@ == value@);
                        assert(j0 != found->0);
                    }
                }
            }
            assert forall|j: int| 0 <= j < self.free_list@.len() implies {
                let t = (#[trigger] self.free_list@[j]).slot();
                &&& t < self.values@.len()
                &&& self.slots()[t as int] is None
            } by {
                if j < old_free.len() {
                    assert(self.free_list@[j] == old_free[j]);
                }
            }
            assert forall|a: int, b: int|
                0 <= a < self.free().len() && 0 <= b < self.free().len() && a != b implies self.free()[a]
                != self.free()[b] by {
                if a < old_free.len() && b < old_free.len() {
                } else if a < old_free.len() {
                    assert(self.free_list@[a] == old_free[a]);
                    assert(slots_of(old_values)[old_free[a].slot() as int] is None);
                } else {
                    assert(self.free_list@[b] == old_free[b]);
                    assert(slots_of(old_values)[old_free[b].slot() as int] is None);
                }
            }
            if old(self).canonical() {
                assert forall|k: int| 0 <= k < self.slots().len() implies match #[trigger] self.slots()[k] {
                    Some(w) => self.lookup().contains_key(w) && self.lookup()[w] == k,
                    None => self.free().contains(k as nat),
                } by {
                    if k != i {
                        assert(self.slots()[k] == old(self).slots()[k]);
                        match self.slots()[k] {
                            Some(w) => {
                                assert(old(self).lookup().contains_key(w));
                                assert(old(self).lookup().contains_key(value@));
                                if w == value@ {
                                    assert(old(self).lookup()[value@] == i);
                                }
                            },
                            None => {
                                let x = choose|x: int| 0 <= x < old(self).free().len() && old(self).free()[x] == k as nat;
                                assert(self.free()[x] == k as nat);
                            },
                        }
                    } else {
                        assert(self.free()[self.free().len() - 1] == i as nat);
                    }
                }
            }
        }
        Some(value)
    }

    /// The names in the occupied slots, in slot order.
    pub fn values(&self) -> (r: Vec<String>)
        ensures
            r@.map_values(|s: String| s@) == active_values(self.slots()),
    {
        let mut out: Vec<String> = Vec::new();
        let mut i: usize = 0;
        while i < self.values.len()
            invariant
                i <= self.values@.len(),
                out@.map_values(|s: String| s@) =~= active_values(self.slots().take(i as int)),
            decreases self.values.len() - i,
        {
            let ghost before = out@;
            assert(self.slots().take(i + 1).drop_last() =~= self.slots().take(i as int));
            match &self.values[i] {
                Some(v) => {
                    out.push(v.clone());
                    assert(out@.map_values(|s: String| s@) =~= before.map_values(|s: String| s@).push(v@));
                },
                None => {},
            }
            i += 1;
        }
        assert(self.slots().take(self.values.len() as int) =~= self.slots());
        out
    }

    /// The name in a slot, if the slot exists and is occupied.
    pub fn get(&self, id: ID) -> (r: Option<&str>)
        ensures
            match r {
                Some(s) => id.slot() < self.slots().len() && self.slots()[id.slot() as int] == Some(
                    s@,
                ),
                None => id.slot() >= self.slots().len() || self.slots()[id.slot() as int] is None,
            },
    {
        let i = id.index();
        if i < self.values.len() {
            match &self.values[i] {
                Some(v) => Some(v.as_str()),
                None => None,
            }
        } else {
            None
        }
    }

    /// The slot that a name (taken as given, not normalised) is found in.
    pub fn id(&self, value: &str) -> (r: Option<ID>)
        requires
            self.wf(),
        ensures
            match r {
                Some(id) => self.lookup().contains_key(value@) && self.lookup()[value@] == id.slot(),
                None => !self.lookup().contains_key(value@),
            },
    {
        match self.find(value) {
            Some(j) => Some(self.lookup[j].1),
            None => None,
        }
    }

    /// Whether a name (taken as given) is found in the lookup map.
    pub fn contains(&self, value: &str) -> (r: bool)
        requires
            self.wf(),
        ensures
            r == self.lookup().contains_key(value@),
    {
        self.find(value).is_some()
    }

    /// The occupied slots with their identifiers, in slot order.
    pub fn iter(&self) -> (r: Vec<(ID, String)>)
        ensures
            r@.map_values(|e: (ID, String)| (e.0.slot(), e.1@)) == active_entries(self.slots()),
    {
        let mut out: Vec<(ID, String)> = Vec::new();
        let mut i: usize = 0;
        while i < self.values.len()
            invariant
                i <= self.values@.len(),
                out@.map_values(|e: (ID, String)| (e.0.slot(), e.1@)) =~= active_entries(
                    self.slots().take(i as int),
                ),
            decreases self.values.len() - i,
        {
            let ghost before = out@;
            assert(self.slots().take(i + 1).drop_last() =~= self.slots().take(i as int));
            match &self.values[i] {
                Some(v) => {
                    let id = ID::new(i);
                    out.push((id, v.clone()));
                    assert(out@.map_values(|e: (ID, String)| (e.0.slot(), e.1@)) =~= before.map_values(
                        |e: (ID, String)| (e.0.slot(), e.1@),
                    ).push((i as nat, v@)));
                },
                None => {},
            }
            i += 1;
        }
        assert(self.slots().take(self.values.len() as int) =~= self.slots());
        out
    }

    /// The number of occupied slots.
    pub fn len(&self) -> (r: usize)
        ensures
            r == active_count(self.slots()),
    {
        let mut n: usize = 0;
        let mut i: usize = 0;
        while i < self.values.len()
            invariant
                i <= self.values@.len(),
                n == active_count(self.slots().take(i as int)),
                n <= i,
            decreases self.values.len() - i,
        {
            assert(self.slots().take(i + 1).drop_last() =~= self.slots().take(i as int));
            if self.values[i].is_some() {
                n += 1;
            }
            i += 1;
        }
        assert(self.slots().take(self.values.len() as int) =~= self.slots());
        n
    }

    /// The number of slots, occupied or not.
    pub fn slot_count(&self) -> (r: usize)
        ensures
            r == self.slots().len(),
    {
        self.values.len()
    }

    /// Whether no slot is occupied.
    pub fn is_empty(&self) -> (r: bool)
        ensures
            r == (active_count(self.slots()) == 0),
    {
        self.len() == 0
    }

    /// The slot table, as stored.
    pub fn to_record(&self) -> (r: RegistryRecord)
        ensures
            r.slots() == self.slots(),
    {
        let mut values: Vec<Option<String>> = Vec::new();
        let mut i: usize = 0;
        while i < self.values.len()
            invariant
                i <= self.values@.len(),
                slots_of(values@) =~= self.slots().take(i as int),
            decreases self.values.len() - i,
        {
            let v = match &self.values[i] {
                Some(s) => Some(s.clone()),
                None => None,
            };
            assert(opt_view(v) == self.slots()[i as int]);
            assert(self.slots().take(i + 1) =~= self.slots().take(i as int).push(self.slots()[i as int]));
            values.push(v);
            i += 1;
        }
        RegistryRecord { values }
    }

    /// Rebuilds a registry from its slot table: each name is found in the
    /// last slot holding it, and the empty slots form the free list in
    /// ascending order.
    pub fn from_record(record: RegistryRecord) -> (r: Self)
        ensures
            r.wf(),
            r.slots() == record.slots(),
            r.lookup() == lookup_of_slots(record.slots()),
            r.free() == free_of_slots(record.slots()),
    {
        let ghost s = record.slots();
        let mut lookup: Vec<(String, ID)> = Vec::new();
        let mut free_list: Vec<ID> = Vec::new();
        let mut i: usize = 0;
        while i < record.values.len()
            invariant
                i <= record.values@.len(),
                s == slots_of(record.values@),
                keys_distinct(lookup@),
                assoc_map(lookup@) == lookup_of_slots(s.take(i as int)),
                forall|j: int|
                    0 <= j < lookup@.len() ==> {
                        let e = #[trigger] lookup@[j];
                        &&& e.1.slot() < i
                        &&& s[e.1.slot() as int] == Some(e.0@)
                    },
                free_list@.map_values(|id: ID| id.slot()) == free_of_slots(s.take(i as int)),
                forall|j: int|
                    0 <= j < free_list@.len() ==> {
                        let t = (#[trigger] free_list@[j]).slot();
                        &&& t < i
                        &&& s[t as int] is None
                    },
                forall|a: int, b: int|
                    0 <= a < b < free_list@.len() ==> (#[trigger] free_list@[a]).slot()
                        < (#[trigger] free_list@[b]).slot(),
            decreases record.values.len() - i,
        {
            assert(s.take(i + 1).drop_last() =~= s.take(i as int));
            let id = ID::new(i);
            let ghost old_lookup = lookup@;
            let ghost old_free = free_list@;
            match &record.values[i] {
                Some(v) => {
                    let key = v.clone();
                    let found = assoc_find(&lookup, key.as_str());
                    match found {
                        Some(j) => {
                            proof {
                                lemma_assoc_update(old_lookup, j as int, (key, id));
                            }
                            lookup.set(j, (key, id));
                        },
                        None => {
                            let ghost k = key@;
                            lookup.push((key, id));
                            assert(lookup@.drop_last() =~= old_lookup);
                            assert(keys_distinct(lookup@)) by {
                                lemma_assoc_map(old_lookup);
                                assert forall|a: int, b: int|
                                    0 <= a < lookup@.len() && 0 <= b < lookup@.len() && a != b implies #[trigger] lookup@[a].0@
                                    != #[trigger] lookup@[b].0@ by {
                                    if a < old_lookup.len() {
                                        assert(lookup@[a] == old_lookup[a]);
                                    }
                                    if b < old_lookup.len() {
                                        assert(lookup@[b] == old_lookup[b]);
                                    }
                                }
                            }
                        },
                    }
                },
                None => {
                    free_list.push(id);
                    assert(free_list@.map_values(|id: ID| id.slot()) =~= old_free.map_values(
                        |id: ID| id.slot(),
                    ).push(i as nat));
                },
            }
            i += 1;
        }
        assert(s.take(record.values.len() as int) =~= s);
        let r = Registry { values: record.values, lookup, free_list };
        r
    }
}

impl<ID: RegistryID> Default for Registry<ID> {
    /// An empty registry.
    fn default() -> (r: Self)
        ensures
            r.canonical(),
            r.slots() == Seq::<Option<Seq<char>>>::empty(),
            r.lookup() == Map::<Seq<char>, nat>::empty(),
            r.free() == Seq::<nat>::empty(),
    {
        let r = Registry { values: Vec::new(), lookup: Vec::new(), free_list: Vec::new() };
        assert(r.slots() =~= Seq::<Option<Seq<char>>>::empty());
        assert(r.free() =~= Seq::<nat>::empty());
        r
    }

}


/// Where `lookup_of_slots` finds a name: in a slot holding it, with no later
/// slot holding it; and every name held somewhere is found.
proof fn lemma_lookup_of_slots(s: Seq<Option<Seq<char>>>)
    ensures
        forall|k: Seq<char>| #[trigger]
            lookup_of_slots(s).contains_key(k) ==> lookup_of_slots(s)[k] < s.len() && s[lookup_of_slots(
                s,
            )[k] as int] == Some(k),
        forall|i: int| 0 <= i < s.len() && (#[trigger] s[i]) is Some ==> lookup_of_slots(s).contains_key(s[i]->0),
    decreases s.len(),
{
    if s.len() > 0 {
        let init = s.drop_last();
        lemma_lookup_of_slots(init);
        assert forall|i: int| 0 <= i < s.len() && (#[trigger] s[i]) is Some implies lookup_of_slots(
            s,
        ).contains_key(s[i]->0) by {
            if i < s.len() - 1 {
                assert(init[i] == s[i]);
            }
        }
        assert forall|k: Seq<char>| #[trigger] lookup_of_slots(s).contains_key(k) implies lookup_of_slots(s)[k]
            < s.len() && s[lookup_of_slots(s)[k] as int] == Some(k) by {
            if s.last() != Some(k) {
                assert(lookup_of_slots(init).contains_key(k));
                assert(init[lookup_of_slots(init)[k] as int] == s[lookup_of_slots(init)[k] as int]);
            }
        }
    }
}

/// The free list rebuilt from a slot table holds exactly the empty slots.
proof fn lemma_free_of_slots(s: Seq<Option<Seq<char>>>)
    ensures
        forall|n: nat| #[trigger] free_of_slots(s).contains(n) <==> n < s.len() && s[n as int] is None,
    decreases s.len(),
{
    if s.len() > 0 {
        let init = s.drop_last();
        lemma_free_of_slots(init);
        assert forall|n: nat| #[trigger] free_of_slots(s).contains(n) <==> n < s.len() && s[n as int] is None by {
            let f = free_of_slots(init);
            if n < s.len() - 1 {
                assert(init[n as int] == s[n as int]);
            }
            if s.last() is None {
                let g = f.push((s.len() - 1) as nat);
                assert(free_of_slots(s) == g);
                if g.contains(n) {
                    let w = choose|w: int| 0 <= w < g.len() && #[trigger] g[w] == n;
                    if w < f.len() {
                        assert(f[w] == n);
                        assert(f.contains(n));
                    }
                }
                if n == s.len() - 1 {
                    assert(g[f.len() as int] == n);
                }
                if f.contains(n) {
                    let w = choose|w: int| 0 <= w < f.len() && #[trigger] f[w] == n;
                    assert(g[w] == n);
                }
            }
        }
    }
}

/// What `iter`, `values` and `len` report agree: `iter` lists exactly the
/// occupied slots, in increasing order, each with the name it holds;
/// `values` lists those names in the same order; both have `len` items.
pub proof fn lemma_active_entries(s: Seq<Option<Seq<char>>>)
    ensures
        active_entries(s).len() == active_count(s),
        active_values(s).len() == active_count(s),
        forall|j: int| 0 <= j < active_entries(s).len() ==> #[trigger] active_values(s)[j] == active_entries(s)[j].1,
        forall|j: int|
            0 <= j < active_entries(s).len() ==> (#[trigger] active_entries(s)[j]).0 < s.len() && s[active_entries(
                s,
            )[j].0 as int] == Some(active_entries(s)[j].1),
        forall|a: int, b: int|
            0 <= a < b < active_entries(s).len() ==> (#[trigger] active_entries(s)[a]).0 < (#[trigger] active_entries(
                s,
            )[b]).0,
        forall|i: int|
            0 <= i < s.len() && (#[trigger] s[i]) is Some ==> exists|j: int|
                0 <= j < active_entries(s).len() && #[trigger] active_entries(s)[j].0 == i,
    decreases s.len(),
{
    if s.len() > 0 {
        let init = s.drop_last();
        lemma_active_entries(init);
        let e = active_entries(init);
        let n = (s.len() - 1) as nat;
        assert forall|j: int| 0 <= j < e.len() implies (#[trigger] e[j]).0 < init.len() by {}
        assert forall|j: int| 0 <= j < active_entries(s).len() implies (#[trigger] active_entries(s)[j]).0 < s.len()
            && s[active_entries(s)[j].0 as int] == Some(active_entries(s)[j].1) by {
            if j < e.len() {
                assert(active_entries(s)[j] == e[j]);
                assert(init[e[j].0 as int] == s[e[j].0 as int]);
            }
        }
        assert forall|a: int, b: int|
            0 <= a < b < active_entries(s).len() implies (#[trigger] active_entries(s)[a]).0 < (#[trigger] active_entries(
                s,
            )[b]).0 by {
            assert(active_entries(s)[a] == e[a]);
            if b < e.len() {
                assert(active_entries(s)[b] == e[b]);
            }
        }
        assert forall|i: int| 0 <= i < s.len() && (#[trigger] s[i]) is Some implies exists|j: int|
            0 <= j < active_entries(s).len() && #[trigger] active_entries(s)[j].0 == i by {
            if i < n {
                assert(init[i] == s[i]);
                let j = choose|j: int| 0 <= j < e.len() && #[trigger] e[j].0 == i;
                assert(active_entries(s)[j] == e[j]);
            } else {
                assert(active_entries(s)[e.len() as int].0 == i);
            }
        }
    }
}

/// In a registry kept by `default`, `intern` and `remove`, `get` and `id`
/// agree: slot `i` holds name `k` exactly when `k` is found at slot `i`.
pub proof fn lemma_get_agrees_with_id<ID: RegistryID>(r: Registry<ID>, i: nat, k: Seq<char>)
    requires
        r.canonical(),
    ensures
        (i < r.slots().len() && r.slots()[i as int] == Some(k)) <==> (r.lookup().contains_key(k)
            && r.lookup()[k] == i),
{
    if i < r.slots().len() && r.slots()[i as int] == Some(k) {
        assert(r.slots()[i as int] matches Some(x) && x == k);
    }
}

/// Saving a registry and loading it back keeps every name in its slot and
/// the same slots free: the registry that `from_record` rebuilds from what
/// `to_record` saves finds each name where the saved one did, and reuses the
/// same empty slots.
pub proof fn lemma_record_roundtrip<ID: RegistryID>(r: Registry<ID>)
    requires
        r.canonical(),
    ensures
        lookup_of_slots(r.slots()) == r.lookup(),
        free_of_slots(r.slots()).to_set() == r.free().to_set(),
{
    let s = r.slots();
    lemma_lookup_of_slots(s);
    lemma_free_of_slots(s);
    r.lemma_wf_lookup();
    let l = lookup_of_slots(s);
    assert forall|k: Seq<char>| #[trigger] l.contains_key(k) <==> r.lookup().contains_key(k) by {
        if r.lookup().contains_key(k) {
            let i = r.lookup()[k] as int;
            assert(s[i] == Some(k));
        }
        if l.contains_key(k) {
            let i = l[k] as int;
            assert(s[i] == Some(k));
        }
    }
    assert forall|k: Seq<char>| #[trigger] l.contains_key(k) implies l[k] == r.lookup()[k] by {
        let i = l[k] as int;
        assert(s[i] == Some(k));
    }
    assert(l =~= r.lookup());
    assert forall|n: nat| #[trigger] free_of_slots(s).to_set().contains(n) <==> r.free().to_set().contains(n) by {
        if r.free().contains(n) {
            let j = choose|j: int| 0 <= j < r.free().len() && r.free()[j] == n;
            assert(r.free()[j] == r.free_list@[j].slot());
        }
        if n < s.len() && s[n as int] is None {
            assert(r.free().contains(n));
        }
    }
    assert(free_of_slots(s).to_set() =~= r.free().to_set());
}

} // verus!
